//! The repository side: what the index and the status list hand over,
//! turned into the library's plain values.
use vstd::prelude::*;

verus! {

/// The kind of an index entry, from its git file mode.
#[derive(Debug, Clone, PartialEq, Eq, Structural)]
pub enum FileMode {
    Regular,
    Executable,
    Symlink,
    Submodule,
    Other(u32),
}

/// A path of the repository with its mode.
#[derive(Debug, Clone)]
pub struct FileEntry {
    pub path: String,
    pub mode: FileMode,
}

/// git's mode bits of an executable file.
pub const MODE_EXECUTABLE: u32 = 0o100755;

/// git's mode bits of a regular file.
pub const MODE_REGULAR: u32 = 0o100644;

/// git's mode bits of a symbolic link.
pub const MODE_SYMLINK: u32 = 0o120000;

/// git's mode bits of a submodule (a gitlink).
pub const MODE_SUBMODULE: u32 = 0o160000;

/// `git2::Status::WT_NEW`: untracked in the working tree.
pub const STATUS_WT_NEW: u32 = 0x80;

/// `git2::Status::WT_MODIFIED`.
pub const STATUS_WT_MODIFIED: u32 = 0x100;

/// `git2::Status::WT_DELETED`.
pub const STATUS_WT_DELETED: u32 = 0x200;

/// `git2::Status::WT_TYPECHANGE`.
pub const STATUS_WT_TYPECHANGE: u32 = 0x400;

/// `git2::Status::WT_RENAMED`.
pub const STATUS_WT_RENAMED: u32 = 0x800;

/// The working-tree changes that make a file a candidate.
pub const WORKTREE_CHANGES: u32 = 0xF80;

pub open spec fn mode_of(bits: u32) -> FileMode {
    if bits == MODE_EXECUTABLE {
        FileMode::Executable
    } else if bits == MODE_REGULAR {
        FileMode::Regular
    } else if bits == MODE_SYMLINK {
        FileMode::Symlink
    } else if bits == MODE_SUBMODULE {
        FileMode::Submodule
    } else {
        FileMode::Other(bits)
    }
}

/// The kind that the mode bits of an index entry stand for.
pub fn file_mode_from_bits(bits: u32) -> (r: FileMode)
    ensures
        r == mode_of(bits),
{
    if bits == MODE_EXECUTABLE {
        FileMode::Executable
    } else if bits == MODE_REGULAR {
        FileMode::Regular
    } else if bits == MODE_SYMLINK {
        FileMode::Symlink
    } else if bits == MODE_SUBMODULE {
        FileMode::Submodule
    } else {
        FileMode::Other(bits)
    }
}

/// The text that `String::from_utf8_lossy` makes of the bytes: the bytes
/// decoded, with U+FFFD in place of each invalid sequence.
pub uninterp spec fn lossy_utf8_of(b: Seq<u8>) -> Seq<char>;

/// Relies on `String::from_utf8_lossy`, which depends on the bytes alone and
/// turns no bytes into the empty text.
#[verifier::external_body]
fn utf8_lossy(b: &[u8]) -> (r: String)
    ensures
        r@ == lossy_utf8_of(b@),
        b@.len() == 0 ==> r@.len() == 0,
{
    String::from_utf8_lossy(b).into_owned()
}

/// The entry for an index record: its path bytes decoded (invalid UTF-8
/// replaced), its mode bits read as a kind.
pub fn file_entry_from_index(path: &[u8], mode: u32) -> (r: FileEntry)
    ensures
        r.path@ == lossy_utf8_of(path@),
        r.mode == mode_of(mode),
{
    FileEntry { path: utf8_lossy(path), mode: file_mode_from_bits(mode) }
}

/// Whether a status marks a change in the working tree: new, modified,
/// deleted, changed in type or renamed.
pub open spec fn is_worktree_change_spec(status: u32) -> bool {
    status & WORKTREE_CHANGES != 0
}

pub fn is_worktree_change(status: u32) -> (r: bool)
    ensures
        r == is_worktree_change_spec(status),
{
    status & WORKTREE_CHANGES != 0
}

/// The paths of the status records that have a path and a working-tree
/// change, in order.
pub open spec fn changed_paths(s: Seq<(u32, Option<String>)>) -> Seq<Seq<char>>
    decreases s.len(),
{
    if s.len() == 0 {
        Seq::empty()
    } else {
        let rest = changed_paths(s.drop_last());
        match s.last().1 {
            Some(p) => if is_worktree_change_spec(s.last().0) {
                rest.push(p@)
            } else {
                rest
            },
            None => rest,
        }
    }
}

/// The candidates among the status records (status bits, path): those with
/// a path and a working-tree change, in order, each as a regular file.
pub fn worktree_candidates(statuses: &Vec<(u32, Option<String>)>) -> (r: Vec<FileEntry>)
    ensures
        r@.len() == changed_paths(statuses@).len(),
        forall|i: int|
            0 <= i < r@.len() ==> (#[trigger] r@[i]).path@ == changed_paths(statuses@)[i]
                && r@[i].mode == FileMode::Regular,
{
    let mut out: Vec<FileEntry> = Vec::new();
    let mut i: usize = 0;
    while i < statuses.len()
        invariant
            i <= statuses@.len(),
            out@.len() == changed_paths(statuses@.take(i as int)).len(),
            forall|k: int|
                0 <= k < out@.len() ==> (#[trigger] out@[k]).path@ == changed_paths(
                    statuses@.take(i as int),
                )[k] && out@[k].mode == FileMode::Regular,
        decreases statuses.len() - i,
    {
        assert(statuses@.take(i + 1).drop_last() =~= statuses@.take(i as int));
        let (bits, path) = &statuses[i];
        match path {
            Some(p) => {
                if is_worktree_change(*bits) {
                    out.push(FileEntry { path: p.clone(), mode: FileMode::Regular });
                }
            },
            None => {},
        }
        i = i + 1;
    }
    assert(statuses@.take(statuses@.len() as int) =~= statuses@);
    out
}

/// The paths of the entries, in order.
pub fn entry_paths(entries: &Vec<FileEntry>) -> (r: Vec<String>)
    ensures
        r@.len() == entries@.len(),
        forall|i: int| 0 <= i < r@.len() ==> #[trigger] r@[i]@ == entries@[i].path@,
{
    let mut out: Vec<String> = Vec::new();
    let mut i: usize = 0;
    while i < entries.len()
        invariant
            i <= entries@.len(),
            out@.len() == i,
            forall|k: int| 0 <= k < i ==> #[trigger] out@[k]@ == entries@[k].path@,
        decreases entries.len() - i,
    {
        out.push(entries[i].path.clone());
        i = i + 1;
    }
    out
}

} // verus!
