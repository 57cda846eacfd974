//! The fuzzy scorer: nucleo's path-tuned matcher, behind trusted items.
use vstd::prelude::*;
use nucleo_matcher::pattern::{CaseMatching, Normalization, Pattern};
use nucleo_matcher::{Config, Matcher, Utf32Str};

verus! {

#[verifier::external_type_specification]
#[verifier::external_body]
pub struct ExMatcher(Matcher);

#[verifier::external_type_specification]
#[verifier::external_body]
pub struct ExPattern(Pattern);

/// The score that nucleo's path-tuned matcher gives `path` for the query
/// `token` (case ignored, smart normalization), or `None` where the path
/// does not match. It depends on the two texts alone.
pub uninterp spec fn fuzzy_score_of(token: Seq<char>, path: Seq<char>) -> Option<u32>;

/// The longest fuzzy token, in characters. A token splits into words at
/// spaces, each word scores below 2^16, and the words' sum is a `u32`: this
/// bound keeps that sum from overflowing.
pub const MAX_FUZZY_TOKEN_LEN: usize = 131072;

/// A query token together with nucleo's parsed form of it.
pub struct FuzzyToken {
    text: String,
    pattern: Pattern,
}

impl FuzzyToken {
    pub closed spec fn text(&self) -> Seq<char> {
        self.text@
    }
}

/// Relies on `Matcher::new` with `Config::DEFAULT.match_paths()`: a matcher
/// whose scoring is tuned for paths. Every matcher of this library comes
/// from here.
#[verifier::external_body]
pub(crate) fn path_matcher() -> Matcher {
    Matcher::new(Config::DEFAULT.match_paths())
}

/// Relies on `Pattern::parse`, ignoring case, with smart normalization: the
/// parsed pattern is kept beside the text it was parsed from.
#[verifier::external_body]
pub(crate) fn fuzzy_token(token: &str) -> (r: FuzzyToken)
    ensures
        r.text() == token@,
{
    FuzzyToken {
        text: token.to_string(),
        pattern: Pattern::parse(token, CaseMatching::Ignore, Normalization::Smart),
    }
}

/// Relies on `Pattern::score`: the score of `path` for the token, `None`
/// where it does not match. `Matcher` panics on a text of 2^32 - 1 code
/// points or more, and the sum over the token's words overflows past
/// 65537 words.
#[verifier::external_body]
pub(crate) fn fuzzy_score(q: &FuzzyToken, path: &str, matcher: &mut Matcher) -> (r: Option<u32>)
    requires
        q.text().len() <= MAX_FUZZY_TOKEN_LEN,
        path@.len() < u32::MAX,
    ensures
        r == fuzzy_score_of(q.text(), path@),
{
    let mut buf: Vec<char> = Vec::new();
    q.pattern.score(Utf32Str::new(path, &mut buf), matcher)
}

} // verus!
