//! The scoring algorithms, which the `fuzzy-matcher` crate provides.
//!
//! Nothing in this file is proved. Each function hands a candidate text and a
//! query to one matcher of that crate, and its contract records what the
//! crate's source shows of the answer: that it depends on nothing but what
//! the matcher was made with and the two texts, and that every position it
//! reports is a position in the candidate text.
//!
//! All three matchers look first whether the characters of the query stand
//! in the candidate text in their order, and report a match exactly where
//! they do; `spec_in_order` says what that means. What they then score and
//! which positions they choose is theirs alone.
//!
//! A matcher is made for each attempt and dropped after it. One that is
//! used again keeps its scratch matrix, and `SkimMatcherV2` reads cells of
//! it that an earlier attempt has written: its score for one pair of texts
//! can then differ with what it was asked before. A fresh matcher starts
//! from a cleared matrix, so its answer is a function of its arguments.

use crate::text::spec_ascii_lower;
use fuzzy_matcher::clangd::ClangdMatcher;
use fuzzy_matcher::skim::SkimMatcherV2;
use vstd::prelude::*;

verus! {

/// The score and the matched positions, as a mathematical value, of a match
/// that a matcher reports.
pub open spec fn spec_found(found: Option<(i64, Vec<usize>)>) -> Option<(i64, Seq<usize>)> {
    match found {
        Some((score, at)) => Some((score, at@)),
        None => None,
    }
}

/// Whether every position of a reported match lies inside a text of `len`
/// characters.
pub open spec fn spec_inside(found: Option<(i64, Vec<usize>)>, len: nat) -> bool {
    match found {
        Some((_, at)) => forall|k: int| 0 <= k < at@.len() ==> #[trigger] at@[k] < len,
        None => true,
    }
}

/// Whether a character of the choice counts as a character of the pattern:
/// the two are the same, or, where case does not count, they are the same
/// once their ASCII capital letters are put in lower case.
pub open spec fn spec_same_letter(a: char, b: char, respect_case: bool) -> bool {
    if respect_case {
        a == b
    } else {
        spec_ascii_lower(a) == spec_ascii_lower(b)
    }
}

/// Whether the characters of the pattern stand in the choice in their
/// order, with other characters between them or none.
pub open spec fn spec_in_order(choice: Seq<char>, pattern: Seq<char>, respect_case: bool) -> bool
    decreases choice.len(),
{
    if pattern.len() == 0 {
        true
    } else if choice.len() == 0 {
        false
    } else if spec_same_letter(choice[0], pattern[0], respect_case) {
        spec_in_order(choice.drop_first(), pattern.drop_first(), respect_case)
    } else {
        spec_in_order(choice.drop_first(), pattern, respect_case)
    }
}

/// What `SkimMatcher::fuzzy_indices` answers for a choice and a pattern.
pub uninterp spec fn skim_v1_outcome(choice: Seq<char>, pattern: Seq<char>) -> Option<
    (i64, Seq<usize>),
>;

/// What `SkimMatcherV2::fuzzy_indices` answers for a choice and a pattern, on a
/// matcher with the given element limit that respects the case of letters
/// or ignores it.
pub uninterp spec fn skim_v2_outcome(
    respect_case: bool,
    limit: usize,
    choice: Seq<char>,
    pattern: Seq<char>,
) -> Option<(i64, Seq<usize>)>;

/// What `ClangdMatcher::fuzzy_indices` answers for a choice and a pattern, on a
/// matcher that respects the case of letters or ignores it.
pub uninterp spec fn clangd_outcome(
    respect_case: bool,
    choice: Seq<char>,
    pattern: Seq<char>,
) -> Option<(i64, Seq<usize>)>;

/// Calls `fuzzy_indices` on a fresh `fuzzy_matcher::skim::SkimMatcher`.
///
/// Claimed of it: the answer depends on the two texts alone; it is a match
/// exactly where the characters of `pattern` stand in `choice` in their
/// order, the case of ASCII letters not counting; and each position it
/// reports is the place of a character of `choice`, counted in characters
/// from 0.
#[verifier::external_body]
#[allow(deprecated)]
pub(crate) fn skim_v1_indices(choice: &str, pattern: &str) -> (found: Option<(i64, Vec<usize>)>)
    requires
        choice@.len() > 0,
        pattern@.len() > 0,
    ensures
        spec_found(found) == skim_v1_outcome(choice@, pattern@),
        found is Some <==> spec_in_order(choice@, pattern@, false),
        spec_inside(found, choice@.len()),
{
    let matcher = fuzzy_matcher::skim::SkimMatcher::default();
    fuzzy_matcher::FuzzyMatcher::fuzzy_indices(&matcher, choice, pattern)
}

/// Calls `fuzzy_indices` on a fresh `fuzzy_matcher::skim::SkimMatcherV2` that
/// was given the element limit and told to respect case.
///
/// Claimed of it: the answer depends on the limit and the two texts alone;
/// it is a match exactly where the characters of `pattern` stand in
/// `choice` in their order; and each position it reports is the place of a
/// character of `choice`, counted in characters from 0.
#[verifier::external_body]
pub(crate) fn skim_v2_respecting(choice: &str, pattern: &str, limit: usize) -> (found: Option<
    (i64, Vec<usize>),
>)
    requires
        choice@.len() > 0,
        pattern@.len() > 0,
    ensures
        spec_found(found) == skim_v2_outcome(true, limit, choice@, pattern@),
        found is Some <==> spec_in_order(choice@, pattern@, true),
        spec_inside(found, choice@.len()),
{
    let matcher = SkimMatcherV2::default().element_limit(limit).respect_case();
    fuzzy_matcher::FuzzyMatcher::fuzzy_indices(&matcher, choice, pattern)
}

/// Calls `fuzzy_indices` on a fresh `fuzzy_matcher::skim::SkimMatcherV2` that
/// was given the element limit and told to ignore case.
///
/// Claimed of it: the answer depends on the limit and the two texts alone;
/// it is a match exactly where the characters of `pattern` stand in
/// `choice` in their order, the case of ASCII letters not counting; and
/// each position it reports is the place of a character of `choice`,
/// counted in characters from 0.
#[verifier::external_body]
pub(crate) fn skim_v2_ignoring(choice: &str, pattern: &str, limit: usize) -> (found: Option<
    (i64, Vec<usize>),
>)
    requires
        choice@.len() > 0,
        pattern@.len() > 0,
    ensures
        spec_found(found) == skim_v2_outcome(false, limit, choice@, pattern@),
        found is Some <==> spec_in_order(choice@, pattern@, false),
        spec_inside(found, choice@.len()),
{
    let matcher = SkimMatcherV2::default().element_limit(limit).ignore_case();
    fuzzy_matcher::FuzzyMatcher::fuzzy_indices(&matcher, choice, pattern)
}

/// Calls `fuzzy_indices` on a fresh `fuzzy_matcher::clangd::ClangdMatcher`
/// that was told to respect case.
///
/// Claimed of it: the answer depends on the two texts alone; it is a match
/// exactly where the characters of `pattern` stand in `choice` in their
/// order; and each position it reports is the place of a character of
/// `choice`, counted in characters from 0.
///
/// The matcher marks what cannot be with the score -2^30 and walks back
/// through its table by the higher score. Texts so long that a true score
/// could fall to that mark are left out, since the walk could then leave
/// the table: a character of `choice` lowers a score by at most 10, and one
/// of `pattern` moves it by less than 88.
#[verifier::external_body]
pub(crate) fn clangd_respecting(choice: &str, pattern: &str) -> (found: Option<(i64, Vec<usize>)>)
    requires
        choice@.len() > 0,
        pattern@.len() > 0,
        16 * choice@.len() + 128 * pattern@.len() < 1073741824,
    ensures
        spec_found(found) == clangd_outcome(true, choice@, pattern@),
        found is Some <==> spec_in_order(choice@, pattern@, true),
        spec_inside(found, choice@.len()),
{
    let matcher = ClangdMatcher::default().respect_case();
    fuzzy_matcher::FuzzyMatcher::fuzzy_indices(&matcher, choice, pattern)
}

/// Calls `fuzzy_indices` on a fresh `fuzzy_matcher::clangd::ClangdMatcher`
/// that was told to ignore case.
///
/// Claimed of it: the answer depends on the two texts alone; it is a match
/// exactly where the characters of `pattern` stand in `choice` in their
/// order, the case of ASCII letters not counting; and each position it
/// reports is the place of a character of `choice`, counted in characters
/// from 0.
///
/// Texts so long that a true score could fall to the matcher's mark for
/// what cannot be, -2^30, are left out, as for the matcher that respects
/// case.
#[verifier::external_body]
pub(crate) fn clangd_ignoring(choice: &str, pattern: &str) -> (found: Option<(i64, Vec<usize>)>)
    requires
        choice@.len() > 0,
        pattern@.len() > 0,
        16 * choice@.len() + 128 * pattern@.len() < 1073741824,
    ensures
        spec_found(found) == clangd_outcome(false, choice@, pattern@),
        found is Some <==> spec_in_order(choice@, pattern@, false),
        spec_inside(found, choice@.len()),
{
    let matcher = ClangdMatcher::default().ignore_case();
    fuzzy_matcher::FuzzyMatcher::fuzzy_indices(&matcher, choice, pattern)
}

} // verus!
