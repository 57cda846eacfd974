//! Multi-token ranking: each token scores every candidate path, the scores
//! of the tokens are intersected and summed, and one winner is picked by
//! score, then by shorter path, then by lexicographic order.
use vstd::prelude::*;
use nucleo_matcher::Matcher;
use crate::fuzzy::{fuzzy_score, fuzzy_score_of, fuzzy_token, path_matcher, MAX_FUZZY_TOKEN_LEN};
use crate::glob::{glob_match_chars, glob_spec, is_glob, is_glob_spec, pattern_well_formed, well_formed};
use crate::text::{chars_of, lex_less, seq_lt};

verus! {

/// The paths of a candidate list, as character sequences.
pub open spec fn paths_of(v: Seq<String>) -> Seq<Seq<char>> {
    v.map_values(|s: String| s@)
}

/// The score of one token for one path: a glob scores 1 on the paths it
/// matches (and nothing when malformed), any other token is scored by the
/// fuzzy matcher.
pub open spec fn token_score(t: Seq<char>, path: Seq<char>) -> Option<u32> {
    if is_glob_spec(t) {
        if well_formed(t) && glob_spec(t, path) {
            Some(1u32)
        } else {
            None
        }
    } else {
        fuzzy_score_of(t, path)
    }
}

/// The score map of one token: entry `i` is the score of candidate `i`.
pub open spec fn token_map(t: Seq<char>, paths: Seq<Seq<char>>) -> Seq<Option<u32>> {
    Seq::new(paths.len(), |i: int| token_score(t, paths[i]))
}

/// The sum of two optional scores, present only where both are.
pub open spec fn add_opt(a: Option<int>, b: Option<int>) -> Option<int> {
    match (a, b) {
        (Some(x), Some(y)) => Some(x + y),
        _ => None,
    }
}

pub open spec fn widen32(o: Option<u32>) -> Option<int> {
    match o {
        Some(v) => Some(v as int),
        None => None,
    }
}

pub open spec fn widen64(o: Option<u64>) -> Option<int> {
    match o {
        Some(v) => Some(v as int),
        None => None,
    }
}

/// The aggregate score of a path for a token list: the sum of the tokens'
/// scores where every token matched the path, else `None`.
pub open spec fn total_score(ts: Seq<Seq<char>>, path: Seq<char>) -> Option<int>
    decreases ts.len(),
{
    if ts.len() == 0 {
        Some(0)
    } else {
        add_opt(total_score(ts.drop_last(), path), widen32(token_score(ts.last(), path)))
    }
}

/// Whether some candidate is matched by every one of the first `k` tokens.
pub open spec fn survives(ts: Seq<Seq<char>>, paths: Seq<Seq<char>>, k: int) -> bool {
    exists|i: int| 0 <= i < paths.len() && #[trigger] total_score(ts.take(k), paths[i]) is Some
}

/// Whether the token matches some candidate.
pub open spec fn hits(t: Seq<char>, paths: Seq<Seq<char>>) -> bool {
    exists|i: int| 0 <= i < paths.len() && #[trigger] token_score(t, paths[i]) is Some
}

/// Whether a candidate with score `s1` and path `p1` ranks strictly above one
/// with score `s2` and path `p2`.
pub open spec fn beats(s1: int, p1: Seq<char>, s2: int, p2: Seq<char>) -> bool {
    s1 > s2 || (s1 == s2 && p1.len() < p2.len()) || (s1 == s2 && p1.len() == p2.len()
        && seq_lt(p1, p2))
}

/// Whether `w` is present in the score map and no present entry ranks
/// strictly above it.
pub open spec fn is_best(scores: Seq<Option<int>>, paths: Seq<Seq<char>>, w: int) -> bool {
    &&& 0 <= w < scores.len()
    &&& scores[w] is Some
    &&& forall|i: int|
        0 <= i < scores.len() && #[trigger] scores[i] is Some ==> !beats(
            scores[i]->0,
            paths[i],
            scores[w]->0,
            paths[w],
        )
}

pub open spec fn widen_all(v: Seq<Option<u64>>) -> Seq<Option<int>> {
    v.map_values(|o: Option<u64>| widen64(o))
}

/// The aggregate scores of every candidate for the token list.
pub open spec fn totals(ts: Seq<Seq<char>>, paths: Seq<Seq<char>>) -> Seq<Option<int>> {
    Seq::new(paths.len(), |i: int| total_score(ts, paths[i]))
}

/// The outcome of a ranking run.
#[derive(Debug, Clone, Copy, PartialEq, Eq, Structural)]
pub enum RankOutcome {
    /// No token was given.
    NoTokens,
    /// There was no candidate to match against.
    NoCandidates,
    /// The token at this position matched no candidate at all.
    TokenMatchedNothing(usize),
    /// Every token matched something, but after the token at this position
    /// no candidate was matched by all tokens so far.
    NoCommonMatch(usize),
    /// The winning candidate and its aggregate score.
    Best { index: usize, score: u64 },
}

fn all_paths(candidates: &Vec<String>) -> (r: Vec<Vec<char>>)
    ensures
        r@.len() == candidates@.len(),
        forall|i: int| 0 <= i < r@.len() ==> #[trigger] r@[i]@ == candidates@[i]@,
{
    let mut out: Vec<Vec<char>> = Vec::new();
    let mut i: usize = 0;
    while i < candidates.len()
        invariant
            i <= candidates@.len(),
            out@.len() == i,
            forall|k: int| 0 <= k < i ==> #[trigger] out@[k]@ == candidates@[k]@,
        decreases candidates.len() - i,
    {
        out.push(chars_of(candidates[i].as_str()));
        i = i + 1;
    }
    out
}

fn match_token_with(
    token: &str,
    candidates: &Vec<String>,
    paths: &Vec<Vec<char>>,
    matcher: &mut Matcher,
) -> (r: Vec<Option<u32>>)
    requires
        token@.len() <= MAX_FUZZY_TOKEN_LEN,
        paths@.len() == candidates@.len(),
        forall|i: int| 0 <= i < paths@.len() ==> #[trigger] paths@[i]@ == candidates@[i]@,
        forall|i: int| 0 <= i < candidates@.len() ==> #[trigger] candidates@[i]@.len() < u32::MAX,
    ensures
        r@ == token_map(token@, paths_of(candidates@)),
{
    let t = chars_of(token);
    let glob = is_glob(&t);
    let formed = pattern_well_formed(&t);
    let q = fuzzy_token(token);
    let mut out: Vec<Option<u32>> = Vec::new();
    let mut i: usize = 0;
    while i < candidates.len()
        invariant
            t@ == token@,
            token@.len() <= MAX_FUZZY_TOKEN_LEN,
            glob == is_glob_spec(token@),
            formed == well_formed(token@),
            q.text() == token@,
            paths@.len() == candidates@.len(),
            forall|k: int| 0 <= k < paths@.len() ==> #[trigger] paths@[k]@ == candidates@[k]@,
            forall|k: int|
                0 <= k < candidates@.len() ==> #[trigger] candidates@[k]@.len() < u32::MAX,
            i <= candidates@.len(),
            out@.len() == i,
            forall|k: int|
                0 <= k < i ==> #[trigger] out@[k] == token_score(token@, candidates@[k]@),
        decreases candidates.len() - i,
    {
        let s: Option<u32> = if glob {
            if formed && glob_match_chars(&t, &paths[i]) {
                Some(1u32)
            } else {
                None
            }
        } else {
            fuzzy_score(&q, candidates[i].as_str(), matcher)
        };
        out.push(s);
        i = i + 1;
    }
    assert(out@ =~= token_map(token@, paths_of(candidates@)));
    out
}

/// The score map of one token over the candidates.
pub fn match_token(token: &str, candidates: &Vec<String>) -> (r: Vec<Option<u32>>)
    requires
        token@.len() <= MAX_FUZZY_TOKEN_LEN,
        forall|i: int| 0 <= i < candidates@.len() ==> #[trigger] candidates@[i]@.len() < u32::MAX,
    ensures
        r@ == token_map(token@, paths_of(candidates@)),
{
    let paths = all_paths(candidates);
    let mut matcher = path_matcher();
    match_token_with(token, candidates, &paths, &mut matcher)
}

/// Whether some entry of the score map is present.
pub fn any_match(scores: &Vec<Option<u32>>) -> (r: bool)
    ensures
        r == exists|i: int| 0 <= i < scores@.len() && #[trigger] scores@[i] is Some,
{
    let mut i: usize = 0;
    while i < scores.len()
        invariant
            i <= scores@.len(),
            forall|k: int| 0 <= k < i ==> #[trigger] scores@[k] is None,
        decreases scores.len() - i,
    {
        if scores[i].is_some() {
            return true;
        }
        i = i + 1;
    }
    false
}

/// Whether some entry of the cumulative map is present.
pub fn any_left(scores: &Vec<Option<u64>>) -> (r: bool)
    ensures
        r == exists|i: int| 0 <= i < scores@.len() && #[trigger] scores@[i] is Some,
{
    let mut i: usize = 0;
    while i < scores.len()
        invariant
            i <= scores@.len(),
            forall|k: int| 0 <= k < i ==> #[trigger] scores@[k] is None,
        decreases scores.len() - i,
    {
        if scores[i].is_some() {
            return true;
        }
        i = i + 1;
    }
    false
}

/// Folds one token's score map into the cumulative one: an entry stays only
/// where both maps have it, and its value becomes the sum of the two.
pub fn intersect_scores(cumulative: &mut Vec<Option<u64>>, this: &Vec<Option<u32>>)
    requires
        old(cumulative)@.len() == this@.len(),
        forall|i: int|
            0 <= i < old(cumulative)@.len() && #[trigger] old(cumulative)@[i] is Some
                ==> old(cumulative)@[i]->0 + u32::MAX <= u64::MAX,
    ensures
        final(cumulative)@.len() == old(cumulative)@.len(),
        forall|i: int|
            0 <= i < final(cumulative)@.len() ==> #[trigger] final(cumulative)@[i] == match (
                old(cumulative)@[i],
                this@[i],
            ) {
                (Some(a), Some(b)) => Some((a + b) as u64),
                _ => None,
            },
        forall|i: int|
            0 <= i < final(cumulative)@.len() ==> #[trigger] widen64(final(cumulative)@[i])
                == add_opt(widen64(old(cumulative)@[i]), widen32(this@[i])),
{
    let mut i: usize = 0;
    while i < cumulative.len()
        invariant
            cumulative@.len() == old(cumulative)@.len(),
            cumulative@.len() == this@.len(),
            i <= cumulative@.len(),
            forall|k: int|
                i <= k < cumulative@.len() ==> #[trigger] cumulative@[k] == old(cumulative)@[k],
            forall|k: int|
                0 <= k < old(cumulative)@.len() && #[trigger] old(cumulative)@[k] is Some
                    ==> old(cumulative)@[k]->0 + u32::MAX <= u64::MAX,
            forall|k: int|
                0 <= k < i ==> #[trigger] cumulative@[k] == match (old(cumulative)@[k], this@[k]) {
                    (Some(a), Some(b)) => Some((a + b) as u64),
                    _ => None,
                },
            forall|k: int|
                0 <= k < i ==> #[trigger] widen64(cumulative@[k]) == add_opt(
                    widen64(old(cumulative)@[k]),
                    widen32(this@[k]),
                ),
        decreases cumulative.len() - i,
    {
        let v: Option<u64> = match (cumulative[i], this[i]) {
            (Some(a), Some(b)) => Some(a + b as u64),
            _ => None,
        };
        cumulative.set(i, v);
        i = i + 1;
    }
}

/// Whether the entry with score `s1` and path `p1` ranks strictly above the
/// one with score `s2` and path `p2`.
pub fn ranks_above(s1: u64, p1: &Vec<char>, s2: u64, p2: &Vec<char>) -> (r: bool)
    ensures
        r == beats(s1 as int, p1@, s2 as int, p2@),
{
    if s1 != s2 {
        s1 > s2
    } else if p1.len() != p2.len() {
        p1.len() < p2.len()
    } else {
        lex_less(p1, p2)
    }
}

fn select_in(scores: &Vec<Option<u64>>, paths: &Vec<Vec<char>>) -> (r: Option<usize>)
    requires
        scores@.len() == paths@.len(),
    ensures
        match r {
            Some(w) => is_best(widen_all(scores@), Seq::new(paths@.len(), |i: int| paths@[i]@), w as int),
            None => forall|i: int| 0 <= i < scores@.len() ==> #[trigger] scores@[i] is None,
        },
{
    let ghost ws = widen_all(scores@);
    let ghost ps = Seq::new(paths@.len(), |i: int| paths@[i]@);
    let mut best: Option<usize> = None;
    let mut i: usize = 0;
    while i < scores.len()
        invariant
            scores@.len() == paths@.len(),
            ws == widen_all(scores@),
            ps == Seq::new(paths@.len(), |i: int| paths@[i]@),
            i <= scores@.len(),
            match best {
                Some(w) => w < i && scores@[w as int] is Some && forall|k: int|
                    0 <= k < i && #[trigger] scores@[k] is Some ==> !beats(
                        scores@[k]->0 as int,
                        paths@[k]@,
                        scores@[w as int]->0 as int,
                        paths@[w as int]@,
                    ),
                None => forall|k: int| 0 <= k < i ==> #[trigger] scores@[k] is None,
            },
        decreases scores.len() - i,
    {
        if let Some(s) = scores[i] {
            match best {
                None => {
                    proof {
                        crate::text::lemma_seq_lt_irreflexive(paths@[i as int]@);
                    }
                    best = Some(i);
                },
                Some(w) => {
                    let sw = scores[w].unwrap();
                    if ranks_above(s, &paths[i], sw, &paths[w]) {
                        proof {
                            crate::text::lemma_seq_lt_irreflexive(paths@[i as int]@);
                            assert forall|k: int|
                                0 <= k <= i && #[trigger] scores@[k] is Some implies !beats(
                                    scores@[k]->0 as int,
                                    paths@[k]@,
                                    s as int,
                                    paths@[i as int]@,
                                ) by {
                                if k < i {
                                    lemma_beats_transitive(
                                        scores@[k]->0 as int,
                                        paths@[k]@,
                                        s as int,
                                        paths@[i as int]@,
                                        sw as int,
                                        paths@[w as int]@,
                                    );
                                }
                            }
                        }
                        best = Some(i);
                    }
                },
            }
        }
        i = i + 1;
    }
    match best {
        Some(w) => {
            assert forall|k: int| 0 <= k < ws.len() && #[trigger] ws[k] is Some implies !beats(
                ws[k]->0,
                ps[k],
                ws[w as int]->0,
                ps[w as int],
            ) by {
                assert(scores@[k] is Some);
            }
        },
        None => {},
    }
    best
}

/// If `a` ranks above `b` and `b` above `c`, then `a` ranks above `c`;
/// stated in the contrapositive form the selection needs.
proof fn lemma_beats_transitive(sa: int, pa: Seq<char>, sb: int, pb: Seq<char>, sc: int, pc: Seq<char>)
    requires
        beats(sb, pb, sc, pc),
        !beats(sa, pa, sc, pc),
    ensures
        !beats(sa, pa, sb, pb),
{
    if beats(sa, pa, sb, pb) && sa == sb && sb == sc && pa.len() == pb.len() && pb.len() == pc.len() {
        lemma_seq_lt_transitive(pa, pb, pc);
    }
}

proof fn lemma_seq_lt_transitive(a: Seq<char>, b: Seq<char>, c: Seq<char>)
    requires
        seq_lt(a, b),
        seq_lt(b, c),
    ensures
        seq_lt(a, c),
    decreases a.len(),
{
    if a.len() > 0 && b.len() > 0 && c.len() > 0 && a[0] == b[0] && b[0] == c[0] {
        lemma_seq_lt_transitive(a.drop_first(), b.drop_first(), c.drop_first());
    }
}

/// Picks the winner of a cumulative score map: the present entry with the
/// highest score, then the shortest path, then the lexicographically
/// smallest path. `None` when no entry is present.
pub fn select_best(cumulative: &Vec<Option<u64>>, candidates: &Vec<String>) -> (r: Option<usize>)
    requires
        cumulative@.len() == candidates@.len(),
    ensures
        match r {
            Some(w) => is_best(widen_all(cumulative@), paths_of(candidates@), w as int),
            None => forall|i: int| 0 <= i < cumulative@.len() ==> #[trigger] cumulative@[i] is None,
        },
{
    let paths = all_paths(candidates);
    let r = select_in(cumulative, &paths);
    assert(Seq::new(paths@.len(), |i: int| paths@[i]@) =~= paths_of(candidates@));
    r
}

/// An aggregate score is at most the number of tokens times the largest
/// single-token score.
proof fn lemma_total_bound(ts: Seq<Seq<char>>, path: Seq<char>)
    ensures
        total_score(ts, path) matches Some(v) ==> 0 <= v <= ts.len() * (u32::MAX as int),
    decreases ts.len(),
{
    if ts.len() > 0 {
        lemma_total_bound(ts.drop_last(), path);
    }
}

/// Once no candidate survives a prefix of the tokens, none survives a
/// longer one.
proof fn lemma_survives_shrinks(ts: Seq<Seq<char>>, paths: Seq<Seq<char>>, k: int, m: int)
    requires
        0 <= k <= m <= ts.len(),
        survives(ts, paths, m),
    ensures
        survives(ts, paths, k),
    decreases m - k,
{
    if k < m {
        let i = choose|i: int| 0 <= i < paths.len() && #[trigger] total_score(ts.take(m), paths[i]) is Some;
        assert(ts.take(m).drop_last() =~= ts.take(m - 1));
        assert(total_score(ts.take(m - 1), paths[i]) is Some);
        lemma_survives_shrinks(ts, paths, k, m - 1);
    }
}

/// Why a query left no candidate.
#[derive(Debug, Clone, Copy, PartialEq, Eq, Structural)]
pub enum NoMatch {
    /// The token at this position matched no candidate at all.
    TokenMatchedNothing(usize),
    /// Every token matched something, but after the token at this position
    /// no candidate was matched by all tokens so far.
    NoCommonMatch(usize),
}

/// What the tokens' score maps leave: `Ok` holds each candidate's aggregate
/// score where every token matched it; `Err` says at which token the fold
/// stopped and why.
pub open spec fn aggregate_post(ts: Seq<Seq<char>>, ps: Seq<Seq<char>>, r: Result<Vec<Option<u64>>, NoMatch>) -> bool {
    &&& (r is Ok) == survives(ts, ps, ts.len() as int)
    &&& match r {
        Ok(v) => widen_all(v@) == totals(ts, ps),
        Err(NoMatch::TokenMatchedNothing(k)) => {
            &&& k < ts.len()
            &&& survives(ts, ps, k as int)
            &&& !survives(ts, ps, k + 1)
            &&& !hits(ts[k as int], ps)
        },
        Err(NoMatch::NoCommonMatch(k)) => {
            &&& k < ts.len()
            &&& survives(ts, ps, k as int)
            &&& !survives(ts, ps, k + 1)
            &&& hits(ts[k as int], ps)
        },
    }
}

fn aggregate_in(tokens: &Vec<String>, candidates: &Vec<String>, paths: &Vec<Vec<char>>) -> (r: Result<Vec<Option<u64>>, NoMatch>)
    requires
        tokens@.len() <= u32::MAX,
        candidates@.len() > 0,
        forall|j: int| 0 <= j < tokens@.len() ==> #[trigger] tokens@[j]@.len() <= MAX_FUZZY_TOKEN_LEN,
        forall|i: int| 0 <= i < candidates@.len() ==> #[trigger] candidates@[i]@.len() < u32::MAX,
        paths@.len() == candidates@.len(),
        forall|i: int| 0 <= i < paths@.len() ==> #[trigger] paths@[i]@ == candidates@[i]@,
    ensures
        aggregate_post(paths_of(tokens@), paths_of(candidates@), r),
{
    let ghost ts = paths_of(tokens@);
    let ghost ps = paths_of(candidates@);
    let mut matcher = path_matcher();
    let mut cumulative: Vec<Option<u64>> = Vec::new();
    let mut z: usize = 0;
    while z < candidates.len()
        invariant
            z <= candidates@.len(),
            cumulative@.len() == z,
            forall|i: int| 0 <= i < z ==> #[trigger] cumulative@[i] == Some(0u64),
        decreases candidates.len() - z,
    {
        cumulative.push(Some(0u64));
        z = z + 1;
    }
    assert(ts.take(0) =~= Seq::<Seq<char>>::empty());
    assert(total_score(ts.take(0), ps[0]) is Some);
    let mut k: usize = 0;
    while k < tokens.len()
        invariant
            ts == paths_of(tokens@),
            ps == paths_of(candidates@),
            tokens@.len() <= u32::MAX,
            forall|j: int| 0 <= j < tokens@.len() ==> #[trigger] tokens@[j]@.len() <= MAX_FUZZY_TOKEN_LEN,
            ps.len() > 0,
            paths@.len() == candidates@.len(),
            forall|i: int| 0 <= i < paths@.len() ==> #[trigger] paths@[i]@ == candidates@[i]@,
            forall|i: int|
                0 <= i < candidates@.len() ==> #[trigger] candidates@[i]@.len() < u32::MAX,
            k <= tokens@.len(),
            cumulative@.len() == candidates@.len(),
            survives(ts, ps, k as int),
            forall|i: int|
                0 <= i < cumulative@.len() ==> #[trigger] widen64(cumulative@[i]) == total_score(
                    ts.take(k as int),
                    ps[i],
                ),
        decreases tokens.len() - k,
    {
        let this = match_token_with(tokens[k].as_str(), candidates, paths, &mut matcher);
        assert(ts.take(k + 1).drop_last() =~= ts.take(k as int));
        assert(ts.take(k + 1).last() == ts[k as int]);
        if !any_match(&this) {
            assert(!hits(ts[k as int], ps)) by {
                assert forall|i: int| 0 <= i < ps.len() implies !(#[trigger] token_score(ts[k as int], ps[i]) is Some) by {
                    assert(this@[i] is None);
                }
            }
            assert(!survives(ts, ps, k + 1)) by {
                assert forall|i: int| 0 <= i < ps.len() implies !(#[trigger] total_score(ts.take(k + 1), ps[i]) is Some) by {
                    assert(this@[i] is None);
                }
            }
            proof {
                if survives(ts, ps, ts.len() as int) {
                    lemma_survives_shrinks(ts, ps, k + 1, ts.len() as int);
                }
            }
            return Err(NoMatch::TokenMatchedNothing(k));
        }
        assert forall|i: int|
            0 <= i < cumulative@.len() && #[trigger] cumulative@[i] is Some implies cumulative@[i]->0
                + u32::MAX <= u64::MAX by {
            lemma_total_bound(ts.take(k as int), ps[i]);
            let v = cumulative@[i]->0 as int;
            assert(widen64(cumulative@[i]) == Some(v));
            assert(ts.take(k as int).len() == k);
            assert(v <= k * (u32::MAX as int));
            assert(k * (u32::MAX as int) + u32::MAX <= u64::MAX) by (nonlinear_arith)
                requires k <= u32::MAX;
        }
        intersect_scores(&mut cumulative, &this);
        if !any_left(&cumulative) {
            assert(hits(ts[k as int], ps)) by {
                let i = choose|i: int| 0 <= i < this@.len() && #[trigger] this@[i] is Some;
                assert(token_score(ts[k as int], ps[i]) is Some);
            }
            assert(!survives(ts, ps, k + 1)) by {
                assert forall|i: int| 0 <= i < ps.len() implies !(#[trigger] total_score(ts.take(k + 1), ps[i]) is Some) by {
                    assert(widen64(cumulative@[i]) == total_score(ts.take(k + 1), ps[i]));
                }
            }
            proof {
                if survives(ts, ps, ts.len() as int) {
                    lemma_survives_shrinks(ts, ps, k + 1, ts.len() as int);
                }
            }
            return Err(NoMatch::NoCommonMatch(k));
        }
        proof {
            let i = choose|i: int| 0 <= i < cumulative@.len() && #[trigger] cumulative@[i] is Some;
            assert(widen64(cumulative@[i]) == total_score(ts.take(k + 1), ps[i]));
        }
        k = k + 1;
    }
    assert(ts.take(ts.len() as int) =~= ts);
    assert(widen_all(cumulative@) =~= totals(ts, ps));
    Ok(cumulative)
}

/// Folds the tokens' score maps into one, token by token: a candidate stays
/// while every token so far matched it, and scores the sum of their scores.
/// The fold stops at the first token that matches nothing, or after which no
/// candidate is left.
pub fn aggregate(tokens: &Vec<String>, candidates: &Vec<String>) -> (r: Result<Vec<Option<u64>>, NoMatch>)
    requires
        tokens@.len() <= u32::MAX,
        candidates@.len() > 0,
        forall|j: int| 0 <= j < tokens@.len() ==> #[trigger] tokens@[j]@.len() <= MAX_FUZZY_TOKEN_LEN,
        forall|i: int| 0 <= i < candidates@.len() ==> #[trigger] candidates@[i]@.len() < u32::MAX,
    ensures
        aggregate_post(paths_of(tokens@), paths_of(candidates@), r),
{
    let paths = all_paths(candidates);
    aggregate_in(tokens, candidates, &paths)
}

/// Ranks the candidates against the tokens: the winner is the candidate that
/// every token matched with the highest aggregate score, then the shortest
/// path, then the lexicographically smallest path.
pub fn rank(tokens: &Vec<String>, candidates: &Vec<String>) -> (r: RankOutcome)
    requires
        tokens@.len() <= u32::MAX,
        forall|j: int| 0 <= j < tokens@.len() ==> #[trigger] tokens@[j]@.len() <= MAX_FUZZY_TOKEN_LEN,
        forall|i: int| 0 <= i < candidates@.len() ==> #[trigger] candidates@[i]@.len() < u32::MAX,
    ensures
        ({
            let ts = paths_of(tokens@);
            let ps = paths_of(candidates@);
            &&& (r is Best) == (ts.len() > 0 && ps.len() > 0 && survives(ts, ps, ts.len() as int))
            &&& match r {
                RankOutcome::NoTokens => ts.len() == 0,
                RankOutcome::NoCandidates => ts.len() > 0 && ps.len() == 0,
                RankOutcome::TokenMatchedNothing(k) => ps.len() > 0 && aggregate_post(
                    ts,
                    ps,
                    Err(NoMatch::TokenMatchedNothing(k)),
                ),
                RankOutcome::NoCommonMatch(k) => ps.len() > 0 && aggregate_post(
                    ts,
                    ps,
                    Err(NoMatch::NoCommonMatch(k)),
                ),
                RankOutcome::Best { index, score } => {
                    &&& total_score(ts, ps[index as int]) == Some(score as int)
                    &&& is_best(totals(ts, ps), ps, index as int)
                },
            }
        }),
{
    let ghost ts = paths_of(tokens@);
    let ghost ps = paths_of(candidates@);
    if tokens.len() == 0 {
        return RankOutcome::NoTokens;
    }
    if candidates.len() == 0 {
        return RankOutcome::NoCandidates;
    }
    let paths = all_paths(candidates);
    match aggregate_in(tokens, candidates, &paths) {
        Err(NoMatch::TokenMatchedNothing(k)) => RankOutcome::TokenMatchedNothing(k),
        Err(NoMatch::NoCommonMatch(k)) => RankOutcome::NoCommonMatch(k),
        Ok(cumulative) => {
            assert(Seq::new(paths@.len(), |i: int| paths@[i]@) =~= ps);
            assert(widen_all(cumulative@).len() == cumulative@.len());
            assert(cumulative@.len() == paths@.len());
            match select_in(&cumulative, &paths) {
                Some(w) => {
                    let score = cumulative[w].unwrap();
                    assert(widen_all(cumulative@)[w as int] == widen64(cumulative@[w as int]));
                    RankOutcome::Best { index: w, score }
                },
                None => {
                    // Never taken: the aggregate left at least one candidate.
                    proof {
                        let i = choose|i: int| 0 <= i < ps.len() && #[trigger] total_score(ts.take(ts.len() as int), ps[i]) is Some;
                        assert(ts.take(ts.len() as int) =~= ts);
                        assert(widen_all(cumulative@)[i] == widen64(cumulative@[i]));
                    }
                    RankOutcome::NoCandidates
                },
            }
        },
    }
}

/// A path has an aggregate score exactly when every token matched it.
pub proof fn lemma_total_score_all_tokens(ts: Seq<Seq<char>>, path: Seq<char>)
    ensures
        (total_score(ts, path) is Some) <==> forall|j: int|
            0 <= j < ts.len() ==> #[trigger] token_score(ts[j], path) is Some,
    decreases ts.len(),
{
    if ts.len() > 0 {
        let d = ts.drop_last();
        lemma_total_score_all_tokens(d, path);
        if total_score(ts, path) is Some {
            assert forall|j: int| 0 <= j < ts.len() implies #[trigger] token_score(ts[j], path) is Some by {
                if j < ts.len() - 1 {
                    assert(d[j] == ts[j]);
                }
            }
        } else if forall|j: int| 0 <= j < ts.len() ==> #[trigger] token_score(ts[j], path) is Some {
            assert forall|j: int| 0 <= j < d.len() implies #[trigger] token_score(d[j], path) is Some by {
                assert(d[j] == ts[j]);
                assert(token_score(ts[j], path) is Some);
            }
            assert(token_score(ts[ts.len() - 1], path) is Some);
        }
    }
}

/// The candidates left after all tokens are exactly those that every single
/// token's score map holds.
pub proof fn lemma_survivors_are_intersection(ts: Seq<Seq<char>>, paths: Seq<Seq<char>>, i: int)
    requires
        0 <= i < paths.len(),
    ensures
        (totals(ts, paths)[i] is Some) <==> forall|j: int|
            0 <= j < ts.len() ==> #[trigger] token_map(ts[j], paths)[i] is Some,
{
    lemma_total_score_all_tokens(ts, paths[i]);
    if forall|j: int| 0 <= j < ts.len() ==> #[trigger] token_map(ts[j], paths)[i] is Some {
        assert forall|j: int| 0 <= j < ts.len() implies #[trigger] token_score(ts[j], paths[i]) is Some by {
            assert(token_map(ts[j], paths)[i] is Some);
        }
    }
}

/// Taking one token out of the list and adding its score back gives the
/// same aggregate score.
proof fn lemma_total_remove(ts: Seq<Seq<char>>, m: int, path: Seq<char>)
    requires
        0 <= m < ts.len(),
    ensures
        total_score(ts, path) == add_opt(total_score(ts.remove(m), path), widen32(token_score(ts[m], path))),
    decreases ts.len(),
{
    if m == ts.len() - 1 {
        assert(ts.remove(m) =~= ts.drop_last());
    } else {
        let d = ts.drop_last();
        lemma_total_remove(d, m, path);
        assert(ts.remove(m).drop_last() =~= d.remove(m));
        assert(ts.remove(m).last() == ts.last());
        assert(d[m] == ts[m]);
    }
}

/// The order of the tokens does not matter: two token lists that hold the
/// same tokens give every path the same aggregate score (and so leave the
/// same candidates).
pub proof fn lemma_token_order_irrelevant(ts1: Seq<Seq<char>>, ts2: Seq<Seq<char>>, path: Seq<char>)
    requires
        ts1.to_multiset() == ts2.to_multiset(),
    ensures
        total_score(ts1, path) == total_score(ts2, path),
    decreases ts1.len(),
{
    ts1.to_multiset_ensures();
    ts2.to_multiset_ensures();
    if ts1.len() == 0 {
        assert(ts2.len() == 0);
    } else {
        let d = ts1.drop_last();
        let x = ts1.last();
        assert(d.push(x) =~= ts1);
        d.to_multiset_ensures();
        assert(ts2.to_multiset().count(x) > 0) by {
            broadcast use vstd::multiset::group_multiset_axioms;
        }
        assert(ts2.contains(x));
        let m = choose|m: int| 0 <= m < ts2.len() && ts2[m] == x;
        assert(ts2.remove(m).to_multiset() =~= d.to_multiset()) by {
            broadcast use vstd::multiset::group_multiset_axioms;
        }
        lemma_token_order_irrelevant(d, ts2.remove(m), path);
        lemma_total_remove(ts2, m, path);
    }
}

/// The whole map of aggregate scores is the same for any order of the
/// tokens.
pub proof fn lemma_totals_order_irrelevant(ts1: Seq<Seq<char>>, ts2: Seq<Seq<char>>, paths: Seq<Seq<char>>)
    requires
        ts1.to_multiset() == ts2.to_multiset(),
    ensures
        totals(ts1, paths) == totals(ts2, paths),
{
    assert forall|i: int| 0 <= i < paths.len() implies #[trigger] totals(ts1, paths)[i] == totals(ts2, paths)[i] by {
        lemma_token_order_irrelevant(ts1, ts2, paths[i]);
    }
    assert(totals(ts1, paths) =~= totals(ts2, paths));
}

/// A glob token keeps exactly the candidates whose whole path its pattern
/// matches, each with score 1, and keeps none when it is malformed.
pub proof fn lemma_glob_token_filters(t: Seq<char>, paths: Seq<Seq<char>>, i: int)
    requires
        is_glob_spec(t),
        0 <= i < paths.len(),
    ensures
        token_map(t, paths)[i] == (if well_formed(t) && glob_spec(t, paths[i]) {
            Some(1u32)
        } else {
            None
        }),
{
}

/// Between two distinct candidates with the same aggregate score, the
/// winner has the shorter path, or, at equal length, the lexicographically
/// smaller one.
pub proof fn lemma_tie_break(ts: Seq<Seq<char>>, paths: Seq<Seq<char>>, w: int, i: int)
    requires
        is_best(totals(ts, paths), paths, w),
        0 <= i < paths.len(),
        totals(ts, paths)[i] == totals(ts, paths)[w],
        paths[i] != paths[w],
    ensures
        paths[w].len() < paths[i].len() || (paths[w].len() == paths[i].len() && seq_lt(paths[w], paths[i])),
{
    let sc = totals(ts, paths);
    assert(sc[i] is Some);
    crate::text::lemma_seq_lt_total(paths[w], paths[i]);
}

/// Once one token matches no candidate, no list of tokens that starts with
/// it leaves a candidate, whatever tokens follow.
pub proof fn lemma_no_match_is_final(ts: Seq<Seq<char>>, extra: Seq<Seq<char>>, paths: Seq<Seq<char>>, k: int)
    requires
        0 <= k < ts.len(),
        !hits(ts[k], paths),
    ensures
        !survives(ts + extra, paths, (ts + extra).len() as int),
{
    let all = ts + extra;
    assert(all.take(all.len() as int) =~= all);
    if survives(all, paths, all.len() as int) {
        let i = choose|i: int| 0 <= i < paths.len() && #[trigger] total_score(all.take(all.len() as int), paths[i]) is Some;
        lemma_total_score_all_tokens(all, paths[i]);
        assert(all[k] == ts[k]);
        assert(token_score(ts[k], paths[i]) is Some);
    }
}

} // verus!
