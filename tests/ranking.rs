use git_fad::glob::glob_matches;
use git_fad::rank::{aggregate, intersect_scores, match_token, rank, select_best, NoMatch, RankOutcome};

fn strings(v: &[&str]) -> Vec<String> {
    v.iter().map(|s| s.to_string()).collect()
}

#[test]
fn scenario_two_tokens_pick_common_file() {
    let cands = strings(&["src/main.x", "src/git/mod.x", "README"]);
    let toks = strings(&["src", "mod"]);
    match rank(&toks, &cands) {
        RankOutcome::Best { index, .. } => assert_eq!(index, 1),
        other => panic!("unexpected outcome {:?}", other),
    }
}

#[test]
fn scenario_contiguous_beats_gapped() {
    let cands = strings(&["a/b.x", "ab.x"]);
    let toks = strings(&["ab"]);
    match rank(&toks, &cands) {
        RankOutcome::Best { index, .. } => assert_eq!(index, 1),
        other => panic!("unexpected outcome {:?}", other),
    }
}

#[test]
fn scenario_glob_matching_nothing() {
    let cands = strings(&["foo.txt", "bar.txt"]);
    let toks = strings(&["*.md"]);
    assert_eq!(rank(&toks, &cands), RankOutcome::TokenMatchedNothing(0));
}

#[test]
fn scenario_no_candidates() {
    let cands: Vec<String> = Vec::new();
    let toks = strings(&["anything", "*.rs"]);
    assert_eq!(rank(&toks, &cands), RankOutcome::NoCandidates);
}

#[test]
fn no_tokens_is_a_no_op() {
    let cands = strings(&["a.txt"]);
    let toks: Vec<String> = Vec::new();
    assert_eq!(rank(&toks, &cands), RankOutcome::NoTokens);
}

#[test]
fn exact_full_path_wins() {
    let cands = strings(&["tests/src_main.rs", "src/main.rs.bak", "src/main.rs", "src/lib.rs"]);
    let toks = strings(&["src/main.rs"]);
    match rank(&toks, &cands) {
        RankOutcome::Best { index, .. } => assert_eq!(index, 2),
        other => panic!("unexpected outcome {:?}", other),
    }
}

#[test]
fn token_order_does_not_change_result() {
    let cands = strings(&["src/main.x", "src/git/mod.x", "README", "docs/modules.md"]);
    let a = rank(&strings(&["src", "mod"]), &cands);
    let b = rank(&strings(&["mod", "src"]), &cands);
    assert_eq!(a, b);
    assert!(matches!(a, RankOutcome::Best { index: 1, .. }));
}

#[test]
fn aggregate_is_sum_of_token_scores() {
    let cands = strings(&["src/main.x", "src/git/mod.x", "README"]);
    let s1 = match_token("src", &cands);
    let s2 = match_token("mod", &cands);
    let expected = s1[1].unwrap() as u64 + s2[1].unwrap() as u64;
    match rank(&strings(&["src", "mod"]), &cands) {
        RankOutcome::Best { index, score } => {
            assert_eq!(index, 1);
            assert_eq!(score, expected);
        }
        other => panic!("unexpected outcome {:?}", other),
    }
}

#[test]
fn fuzzy_token_scores_only_subsequence_matches() {
    let cands = strings(&["src/main.x", "README"]);
    let m = match_token("src", &cands);
    assert_eq!(m.len(), 2);
    assert!(m[0].is_some());
    assert!(m[1].is_none());
}

#[test]
fn glob_token_scores_one_per_match() {
    let cands = strings(&["a.x", "b.y", "dir/c.x"]);
    let m = match_token("*.x", &cands);
    assert_eq!(m, vec![Some(1), None, Some(1)]);
    for (i, c) in cands.iter().enumerate() {
        assert_eq!(glob_matches("*.x", c) == Some(true), m[i].is_some());
    }
}

#[test]
fn malformed_glob_matches_nothing() {
    let cands = strings(&["[abc", "abc"]);
    assert_eq!(match_token("[abc", &cands), vec![None, None]);
    assert_eq!(rank(&strings(&["[abc"]), &cands), RankOutcome::TokenMatchedNothing(0));
    assert_eq!(glob_matches("[abc", "a"), None);
}

#[test]
fn glob_classes_and_wildcards() {
    assert_eq!(glob_matches("[!a]?.x", "bc.x"), Some(true));
    assert_eq!(glob_matches("[!a]?.x", "ac.x"), Some(false));
    assert_eq!(glob_matches("[a-c]*", "cat"), Some(true));
    assert_eq!(glob_matches("[a-c]*", "dog"), Some(false));
    assert_eq!(glob_matches("src/*.rs", "src/git/mod.rs"), Some(true));
    assert_eq!(glob_matches("?", ""), Some(false));
    assert_eq!(glob_matches("*", ""), Some(true));
    assert_eq!(glob_matches("abc", "abcd"), Some(false));
}

#[test]
fn equal_score_shorter_path_wins() {
    let cands = strings(&["bb.x", "c.x", "a.x", "ddd.y"]);
    match rank(&strings(&["*.x"]), &cands) {
        RankOutcome::Best { index, score } => {
            assert_eq!(index, 2);
            assert_eq!(score, 1);
        }
        other => panic!("unexpected outcome {:?}", other),
    }
}

#[test]
fn equal_score_and_length_lexical_wins() {
    let cands = strings(&["zz.x", "ab.x", "ba.x"]);
    let cumulative = vec![Some(5u64), Some(5u64), Some(5u64)];
    assert_eq!(select_best(&cumulative, &cands), Some(1));
}

#[test]
fn higher_score_beats_shorter_path() {
    let cands = strings(&["a.x", "longer/path.x"]);
    let cumulative = vec![Some(3u64), Some(4u64)];
    assert_eq!(select_best(&cumulative, &cands), Some(1));
    let none: Vec<Option<u64>> = vec![None, None];
    assert_eq!(select_best(&none, &cands), None);
}

#[test]
fn failing_token_stays_failing() {
    let cands = strings(&["src/main.x", "README"]);
    assert_eq!(rank(&strings(&["qqq"]), &cands), RankOutcome::TokenMatchedNothing(0));
    assert_eq!(rank(&strings(&["qqq", "src"]), &cands), RankOutcome::TokenMatchedNothing(0));
    assert_eq!(rank(&strings(&["qqq", "src", "*.x"]), &cands), RankOutcome::TokenMatchedNothing(0));
    assert_eq!(rank(&strings(&["src", "qqq"]), &cands), RankOutcome::TokenMatchedNothing(1));
}

#[test]
fn disjoint_tokens_leave_no_common_match() {
    let cands = strings(&["foo.txt", "bar.txt"]);
    assert_eq!(rank(&strings(&["foo", "bar"]), &cands), RankOutcome::NoCommonMatch(1));
}

#[test]
fn intersection_adds_and_drops() {
    let mut cumulative = vec![Some(10u64), Some(3u64), None];
    let this = vec![Some(2u32), None, Some(7u32)];
    intersect_scores(&mut cumulative, &this);
    assert_eq!(cumulative, vec![Some(12u64), None, None]);
}

#[test]
fn aggregate_reports_where_the_fold_stopped() {
    let cands = strings(&["foo.txt", "bar.txt", "foo.md"]);
    let ok = aggregate(&strings(&["foo", "*.md"]), &cands).unwrap();
    assert!(ok[0].is_none());
    assert!(ok[1].is_none());
    assert_eq!(ok[2], Some(match_token("foo", &cands)[2].unwrap() as u64 + 1));
    assert_eq!(aggregate(&strings(&["foo", "bar"]), &cands), Err(NoMatch::NoCommonMatch(1)));
    assert_eq!(aggregate(&strings(&["xyz", "foo"]), &cands), Err(NoMatch::TokenMatchedNothing(0)));
}
