use git_fad::git::{
    entry_paths, file_entry_from_index, file_mode_from_bits, is_worktree_change, worktree_candidates,
    FileMode,
};
use git_fad::text::{chars_of, lex_less};

#[test]
fn modes_from_bits() {
    assert_eq!(file_mode_from_bits(0o100755), FileMode::Executable);
    assert_eq!(file_mode_from_bits(0o100644), FileMode::Regular);
    assert_eq!(file_mode_from_bits(0o120000), FileMode::Symlink);
    assert_eq!(file_mode_from_bits(0o160000), FileMode::Submodule);
    assert_eq!(file_mode_from_bits(0o40000), FileMode::Other(0o40000));
}

#[test]
fn index_entry_paths_are_decoded() {
    let e = file_entry_from_index(b"src/main.rs", 0o100644);
    assert_eq!(e.path, "src/main.rs");
    assert_eq!(e.mode, FileMode::Regular);
    let bad = file_entry_from_index(&[b'a', 0xff, b'b'], 0o100755);
    assert_eq!(bad.path, "a\u{fffd}b");
    assert_eq!(bad.mode, FileMode::Executable);
}

#[test]
fn worktree_changes_are_selected() {
    assert!(is_worktree_change(0x80));
    assert!(is_worktree_change(0x800 | 0x1));
    assert!(!is_worktree_change(0x1));
    assert!(!is_worktree_change(0x4000));
    let statuses = vec![
        (0x80u32, Some("new.txt".to_string())),
        (0x1u32, Some("staged.txt".to_string())),
        (0x100u32, None),
        (0x200u32, Some("gone.txt".to_string())),
    ];
    let c = worktree_candidates(&statuses);
    assert_eq!(entry_paths(&c), vec!["new.txt".to_string(), "gone.txt".to_string()]);
    assert!(c.iter().all(|e| e.mode == FileMode::Regular));
}

#[test]
fn lexicographic_order_on_characters() {
    assert!(lex_less(&chars_of("ab"), &chars_of("b")));
    assert!(lex_less(&chars_of("a"), &chars_of("ab")));
    assert!(!lex_less(&chars_of("ab"), &chars_of("ab")));
    assert!(!lex_less(&chars_of("é"), &chars_of("z")));
}
