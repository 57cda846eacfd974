//! Shell-style glob patterns, matched against a whole path.
//!
//! `*` matches any run of characters (`/` included), `?` any one character,
//! and `[...]` one character of a class: single characters and ranges `a-z`,
//! negated by a leading `!`. A `[` with no `]` after it makes the pattern
//! malformed.
use vstd::prelude::*;
use crate::text::chars_of;

verus! {

/// Whether `t` holds a wildcard character and is therefore a glob.
pub open spec fn is_glob_spec(t: Seq<char>) -> bool {
    exists|i: int| 0 <= i < t.len() && (t[i] == '*' || t[i] == '?' || t[i] == '[')
}

/// Where the members of the class opened at `i` begin.
pub open spec fn class_body(p: Seq<char>, i: int) -> int {
    if p.len() - i > 1 && p[i + 1] == '!' {
        i + 2
    } else {
        i + 1
    }
}

/// The first `]` at or after `k`.
pub open spec fn close_from(p: Seq<char>, k: int) -> Option<int>
    decreases p.len() - k,
{
    if k < 0 || k >= p.len() {
        None
    } else if p[k] == ']' {
        Some(k)
    } else {
        close_from(p, k + 1)
    }
}

/// The `]` that closes the class opened at `i`.
pub open spec fn class_close(p: Seq<char>, i: int) -> Option<int> {
    close_from(p, class_body(p, i))
}

/// Whether the class members `p[lo..hi]` hold `c`.
pub open spec fn class_has(p: Seq<char>, lo: int, hi: int, c: char) -> bool
    decreases hi - lo,
{
    if lo >= hi {
        false
    } else if lo + 2 < hi && p[lo + 1] == '-' {
        (p[lo] <= c && c <= p[lo + 2])
            || class_has(p, lo + 3, hi, c)
    } else {
        p[lo] == c || class_has(p, lo + 1, hi, c)
    }
}

/// Whether every class from position `i` of `p` on is closed.
pub open spec fn well_formed_from(p: Seq<char>, i: int) -> bool
    decreases p.len() - i,
{
    if i < 0 || i >= p.len() {
        true
    } else if p[i] == '[' {
        match class_close(p, i) {
            Some(k) => if i < k < p.len() {
                well_formed_from(p, k + 1)
            } else {
                false
            },
            None => false,
        }
    } else {
        well_formed_from(p, i + 1)
    }
}

pub open spec fn well_formed(p: Seq<char>) -> bool {
    well_formed_from(p, 0)
}

/// Whether the pattern from position `i` matches the text from position `j`.
pub open spec fn matches_from(p: Seq<char>, s: Seq<char>, i: int, j: int) -> bool
    decreases p.len() - i, s.len() - j,
{
    if i < 0 || j < 0 || j > s.len() {
        false
    } else if i >= p.len() {
        j == s.len()
    } else if p[i] == '*' {
        matches_from(p, s, i + 1, j) || (j < s.len() && matches_from(p, s, i, j + 1))
    } else if j >= s.len() {
        false
    } else if p[i] == '?' {
        matches_from(p, s, i + 1, j + 1)
    } else if p[i] == '[' {
        match class_close(p, i) {
            Some(k) => if i < k < p.len() {
                (class_has(p, class_body(p, i), k, s[j]) != (class_body(p, i) == i + 2))
                    && matches_from(p, s, k + 1, j + 1)
            } else {
                false
            },
            None => false,
        }
    } else {
        p[i] == s[j] && matches_from(p, s, i + 1, j + 1)
    }
}

/// Whether the whole of `s` matches the whole of `p`.
pub open spec fn glob_spec(p: Seq<char>, s: Seq<char>) -> bool {
    matches_from(p, s, 0, 0)
}

/// Whether `t` holds a wildcard (`*`, `?` or `[`).
pub fn is_glob(t: &Vec<char>) -> (r: bool)
    ensures
        r == is_glob_spec(t@),
{
    let mut i: usize = 0;
    while i < t.len()
        invariant
            i <= t@.len(),
            forall|k: int| 0 <= k < i ==> !(t@[k] == '*' || t@[k] == '?' || t@[k] == '['),
        decreases t.len() - i,
    {
        if t[i] == '*' || t[i] == '?' || t[i] == '[' {
            return true;
        }
        i = i + 1;
    }
    false
}

fn find_close(p: &Vec<char>, k: usize) -> (r: Option<usize>)
    ensures
        match r {
            Some(x) => close_from(p@, k as int) == Some(x as int) && k <= x < p@.len(),
            None => close_from(p@, k as int) is None,
        },
    decreases p.len() - k,
{
    if k >= p.len() {
        None
    } else if p[k] == ']' {
        Some(k)
    } else {
        find_close(p, k + 1)
    }
}

fn body_of(p: &Vec<char>, i: usize) -> (r: usize)
    requires
        i < p@.len(),
    ensures
        r as int == class_body(p@, i as int),
        i + 1 <= r <= i + 2,
{
    if p.len() - i > 1 && p[i + 1] == '!' {
        i + 2
    } else {
        i + 1
    }
}

fn class_contains(p: &Vec<char>, lo: usize, hi: usize, c: char) -> (r: bool)
    requires
        hi <= p@.len(),
    ensures
        r == class_has(p@, lo as int, hi as int, c),
    decreases hi - lo,
{
    if lo >= hi {
        false
    } else if hi - lo > 2 && p[lo + 1] == '-' {
        (p[lo] <= c && c <= p[lo + 2])
            || class_contains(p, lo + 3, hi, c)
    } else {
        p[lo] == c || class_contains(p, lo + 1, hi, c)
    }
}

/// Whether every `[` of the pattern has its `]`.
pub fn pattern_well_formed(p: &Vec<char>) -> (r: bool)
    ensures
        r == well_formed(p@),
{
    let mut i: usize = 0;
    while i < p.len()
        invariant
            i <= p@.len(),
            well_formed(p@) == well_formed_from(p@, i as int),
        decreases p.len() - i,
    {
        if p[i] == '[' {
            let b = body_of(p, i);
            match find_close(p, b) {
                Some(k) => {
                    i = k + 1;
                },
                None => {
                    return false;
                },
            }
        } else {
            i = i + 1;
        }
    }
    true
}

/// One row of the match table: entry `j` says whether the pattern from `i`
/// matches the text from `j`, given the rows already computed for every
/// position after `i` (`rows[t]` is the row of position `p.len() - t`).
fn match_row(p: &Vec<char>, s: &Vec<char>, i: usize, rows: &Vec<Vec<bool>>) -> (r: Vec<bool>)
    requires
        i < p@.len(),
        s@.len() < usize::MAX,
        rows@.len() == p@.len() - i,
        forall|t: int|
            0 <= t < rows@.len() ==> #[trigger] rows@[t]@.len() == s@.len() + 1,
        forall|t: int, j: int|
            0 <= t < rows@.len() && 0 <= j <= s@.len() ==> #[trigger] rows@[t]@[j]
                == matches_from(p@, s@, p@.len() - t, j),
    ensures
        r@.len() == s@.len() + 1,
        forall|j: int| 0 <= j <= s@.len() ==> #[trigger] r@[j] == matches_from(p@, s@, i as int, j),
{
    let n = s.len();
    let next = &rows[p.len() - i - 1];
    let mut cur: Vec<bool> = Vec::new();
    let mut z: usize = 0;
    while z <= n
        invariant
            n == s@.len(),
            n < usize::MAX,
            z <= n + 1,
            cur@.len() == z,
        decreases n + 1 - z,
    {
        cur.push(false);
        z = z + 1;
    }
    let c = p[i];
    let mut j: usize = n + 1;
    while j > 0
        invariant
            n == s@.len(),
            n < usize::MAX,
            i < p@.len(),
            c == p@[i as int],
            0 <= j <= n + 1,
            cur@.len() == n + 1,
            next@ == rows@[p@.len() - i - 1]@,
            rows@.len() == p@.len() - i,
            forall|t: int|
                0 <= t < rows@.len() ==> #[trigger] rows@[t]@.len() == s@.len() + 1,
            forall|t: int, j: int|
                0 <= t < rows@.len() && 0 <= j <= s@.len() ==> #[trigger] rows@[t]@[j]
                    == matches_from(p@, s@, p@.len() - t, j),
            forall|jj: int| j <= jj <= n ==> #[trigger] cur@[jj] == matches_from(p@, s@, i as int, jj),
        decreases j,
    {
        j = j - 1;
        let v: bool = if c == '*' {
            assert(next@[j as int] == matches_from(p@, s@, i + 1, j as int));
            next[j] || (j < n && cur[j + 1])
        } else if j >= n {
            false
        } else if c == '?' {
            assert(next@[j + 1] == matches_from(p@, s@, i + 1, j + 1));
            next[j + 1]
        } else if c == '[' {
            let b = body_of(p, i);
            match find_close(p, b) {
                Some(k) => {
                    let later = &rows[p.len() - k - 1];
                    assert(later@[j + 1] == matches_from(p@, s@, k + 1, j + 1));
                    class_contains(p, b, k, s[j]) != (b == i + 2) && later[j + 1]
                },
                None => {
                    assert(class_close(p@, i as int) is None);
                    false
                },
            }
        } else {
            assert(next@[j + 1] == matches_from(p@, s@, i + 1, j + 1));
            c == s[j] && next[j + 1]
        };
        assert(v == matches_from(p@, s@, i as int, j as int));
        cur.set(j, v);
    }
    cur
}

/// Whether the whole of `s` matches the pattern `p`, for a well-formed `p`.
pub fn glob_match_chars(p: &Vec<char>, s: &Vec<char>) -> (r: bool)
    requires
        s@.len() < usize::MAX,
    ensures
        r == glob_spec(p@, s@),
{
    let n = s.len();
    let mut last: Vec<bool> = Vec::new();
    let mut z: usize = 0;
    while z <= n
        invariant
            n == s@.len(),
            n < usize::MAX,
            z <= n + 1,
            last@.len() == z,
            forall|j: int| 0 <= j < z ==> #[trigger] last@[j] == (j == n),
        decreases n + 1 - z,
    {
        last.push(z == n);
        z = z + 1;
    }
    let mut rows: Vec<Vec<bool>> = Vec::new();
    rows.push(last);
    let mut i: usize = p.len();
    while i > 0
        invariant
            n == s@.len(),
            n < usize::MAX,
            i <= p@.len(),
            rows@.len() == p@.len() - i + 1,
            forall|t: int|
                0 <= t < rows@.len() ==> #[trigger] rows@[t]@.len() == s@.len() + 1,
            forall|t: int, j: int|
                0 <= t < rows@.len() && 0 <= j <= s@.len() ==> #[trigger] rows@[t]@[j]
                    == matches_from(p@, s@, p@.len() - t, j),
        decreases i,
    {
        i = i - 1;
        let row = match_row(p, s, i, &rows);
        rows.push(row);
    }
    rows[p.len()][0]
}

/// Matches `path` against the glob `pattern`: `None` when the pattern is
/// malformed, else whether the whole path matches.
pub fn glob_matches(pattern: &str, path: &str) -> (r: Option<bool>)
    requires
        path@.len() < usize::MAX,
    ensures
        r == (if well_formed(pattern@) {
            Some(glob_spec(pattern@, path@))
        } else {
            None
        }),
{
    let p = chars_of(pattern);
    if !pattern_well_formed(&p) {
        return None;
    }
    let s = chars_of(path);
    Some(glob_match_chars(&p, &s))
}

} // verus!
