//! Fuzzy matching of one candidate against the query of a session.

use crate::engine::matcher::{
    clangd_ignoring, clangd_outcome, clangd_respecting, skim_v1_indices, skim_v1_outcome,
    skim_v2_ignoring, skim_v2_outcome, skim_v2_respecting, spec_found, spec_in_order,
    spec_inside, spec_same_letter,
};
use crate::item::{
    clip, spec_clip, spec_range_fits, spec_ranges_fit, Candidate, CandidateView,
};
use crate::options::{CaseMatching, ConfigError};
use crate::rank::{spec_rank, RankBuilder, RankCriteria};
use crate::result::{spec_result, MatchResult, MatchResultView};
use crate::text::{
    chars_of, eq_lowered, lemma_char_offsets, lemma_chars_fit_bytes, slice_at, spec_char_offset,
    spec_lowered,
};
use std::sync::Arc;
use vstd::prelude::*;
use vstd::string::StrSliceExecFns;
use vstd::string::StringExecFns;
use vstd::utf8::encode_utf8;

verus! {

/// The scoring algorithm of a session.
#[derive(Debug, Copy, Clone, PartialEq, Eq, Structural)]
pub enum FuzzyAlgorithm {
    SkimV2,
    SkimV1,
    Clangd,
}

impl Default for FuzzyAlgorithm {
    fn default() -> (algorithm: FuzzyAlgorithm)
        ensures
            algorithm == FuzzyAlgorithm::SkimV2,
    {
        FuzzyAlgorithm::SkimV2
    }
}

/// The algorithm that a name stands for, read without regard to the case of
/// its ASCII letters. `skim` is another name of the second skim algorithm. A
/// name that is none of the four stands for no algorithm.
pub open spec fn spec_algorithm_of(name: Seq<char>) -> Option<FuzzyAlgorithm> {
    let lowered = spec_lowered(name);
    if lowered == "skim_v1"@ {
        Some(FuzzyAlgorithm::SkimV1)
    } else if lowered == "skim_v2"@ || lowered == "skim"@ {
        Some(FuzzyAlgorithm::SkimV2)
    } else if lowered == "clangd"@ {
        Some(FuzzyAlgorithm::Clangd)
    } else {
        None
    }
}

impl FuzzyAlgorithm {
    /// The algorithm that a name stands for. A name that stands for none is
    /// refused: no algorithm is chosen in its place.
    pub fn of(algorithm: &str) -> (chosen: Result<FuzzyAlgorithm, ConfigError>)
        ensures
            match chosen {
                Ok(a) => spec_algorithm_of(algorithm@) == Some(a),
                Err(e) => spec_algorithm_of(algorithm@) is None && e
                    == ConfigError::InvalidAlgorithm,
            },
    {
        if eq_lowered(algorithm, "skim_v1") {
            Ok(FuzzyAlgorithm::SkimV1)
        } else if eq_lowered(algorithm, "skim_v2") || eq_lowered(algorithm, "skim") {
            Ok(FuzzyAlgorithm::SkimV2)
        } else if eq_lowered(algorithm, "clangd") {
            Ok(FuzzyAlgorithm::Clangd)
        } else {
            Err(ConfigError::InvalidAlgorithm)
        }
    }
}

/// The number of matrix elements that an attempt is given where nothing else
/// is configured.
pub const BYTES_1M: usize = 1073741824;

/// The number of matrix elements that matching `pattern` against `choice` takes:
/// one row for each character of the pattern and one more, one column for
/// each character of the choice and one more.
pub open spec fn spec_elements(choice: Seq<char>, pattern: Seq<char>) -> nat {
    (choice.len() + 1) * (pattern.len() + 1)
}

/// Whether `c` is an ASCII capital letter.
pub open spec fn spec_is_capital(c: char) -> bool {
    'A' <= c && c <= 'Z'
}

/// Whether the case of letters counts when `pattern` is matched under a
/// case mode. Under the smart mode it counts exactly where the pattern
/// itself holds an ASCII capital letter.
pub open spec fn spec_respects_case(case: CaseMatching, pattern: Seq<char>) -> bool {
    match case {
        CaseMatching::Respect => true,
        CaseMatching::Ignore => false,
        CaseMatching::Smart => exists|i: int|
            0 <= i < pattern.len() && spec_is_capital(#[trigger] pattern[i]),
    }
}

/// Whether the positions show the pattern in the choice: one position for
/// each character of the pattern, from left to right, and at each the very
/// character of the pattern, in its own case.
pub open spec fn spec_shows_pattern(choice: Seq<char>, pattern: Seq<char>, at: Seq<usize>) -> bool {
    &&& at.len() == pattern.len()
    &&& forall|k: int| 0 <= k < at.len() ==> (#[trigger] at[k]) < choice.len() && choice[at[k] as int]
        == pattern[k]
    &&& forall|j: int, k: int| 0 <= j < k < at.len() ==> (#[trigger] at[j]) < (#[trigger] at[k])
}

/// The leftmost positions at which the characters of the pattern stand in
/// the choice in their order, each in its own case, where the first
/// character of the choice has the position `first`: each character of the
/// pattern is taken where it first stands behind the one before it.
pub open spec fn spec_leftmost(choice: Seq<char>, pattern: Seq<char>, first: nat) -> Seq<usize>
    decreases choice.len(),
{
    if pattern.len() == 0 || choice.len() == 0 {
        Seq::empty()
    } else if choice[0] == pattern[0] {
        seq![first as usize] + spec_leftmost(choice.drop_first(), pattern.drop_first(), first + 1)
    } else {
        spec_leftmost(choice.drop_first(), pattern, first + 1)
    }
}

/// What becomes of the answer of a matcher that does not tell the cases
/// apart, where case counts.
///
/// There is a match exactly where the matcher reports one and the
/// characters of the pattern stand in the choice in their order, each in
/// its own case. The score is the matcher's. The positions are the
/// matcher's where they show the pattern in the choice; where they fall on
/// a letter in another case, they are the leftmost that show it.
pub open spec fn spec_held_to_case(
    choice: Seq<char>,
    pattern: Seq<char>,
    found: Option<(i64, Seq<usize>)>,
) -> Option<(i64, Seq<usize>)> {
    match found {
        Some((score, at)) => if spec_shows_pattern(choice, pattern, at) {
            Some((score, at))
        } else if spec_in_order(choice, pattern, true) {
            Some((score, spec_leftmost(choice, pattern, 0)))
        } else {
            None
        },
        None => None,
    }
}

/// What the structural algorithm has to carry for a choice and a pattern:
/// 16 for each character of the choice and 128 for each of the pattern.
pub open spec fn spec_clangd_load(choice: Seq<char>, pattern: Seq<char>) -> nat {
    16 * choice.len() + 128 * pattern.len()
}

/// The load below which the structural algorithm is asked. Its scores fall by
/// at most 10 for a character of the choice and move by less than 88 for a
/// character of the pattern, and they must stay above the score with which
/// it marks what cannot be, which is minus this number.
pub const CLANGD_REACH: usize = 1073741824;

/// What the chosen algorithm answers for a choice and a pattern.
///
/// The first skim algorithm never tells the cases apart; where case counts,
/// its answer is held to case. The structural algorithm is not asked where
/// the load is beyond its reach: there is no match then.
pub open spec fn spec_algorithm_outcome(
    algorithm: FuzzyAlgorithm,
    case: CaseMatching,
    budget: usize,
    choice: Seq<char>,
    pattern: Seq<char>,
) -> Option<(i64, Seq<usize>)> {
    match algorithm {
        FuzzyAlgorithm::SkimV1 => if spec_respects_case(case, pattern) {
            spec_held_to_case(choice, pattern, skim_v1_outcome(choice, pattern))
        } else {
            skim_v1_outcome(choice, pattern)
        },
        FuzzyAlgorithm::SkimV2 => skim_v2_outcome(
            spec_respects_case(case, pattern),
            budget,
            choice,
            pattern,
        ),
        FuzzyAlgorithm::Clangd => if spec_clangd_load(choice, pattern) >= CLANGD_REACH {
            None
        } else {
            clangd_outcome(spec_respects_case(case, pattern), choice, pattern)
        },
    }
}

/// Positions that lie in the choice from left to right, each on a character
/// that counts as the character of the pattern that it stands for, show
/// that the characters of the pattern stand in the choice in their order.
proof fn lemma_places_are_in_order(
    choice: Seq<char>,
    pattern: Seq<char>,
    at: Seq<int>,
    respect_case: bool,
)
    requires
        at.len() == pattern.len(),
        forall|k: int|
            0 <= k < at.len() ==> 0 <= (#[trigger] at[k]) < choice.len() && spec_same_letter(
                choice[at[k]],
                pattern[k],
                respect_case,
            ),
        forall|j: int, k: int| 0 <= j < k < at.len() ==> (#[trigger] at[j]) < (#[trigger] at[k]),
    ensures
        spec_in_order(choice, pattern, respect_case),
    decreases choice.len(),
{
    if pattern.len() == 0 {
    } else if choice.len() == 0 {
        assert(0 <= at[0] < choice.len());
    } else if spec_same_letter(choice[0], pattern[0], respect_case) {
        let rest = Seq::new((at.len() - 1) as nat, |k: int| at[k + 1] - 1);
        assert forall|k: int| 0 <= k < rest.len() implies 0 <= (#[trigger] rest[k])
            < choice.drop_first().len() && spec_same_letter(
            choice.drop_first()[rest[k]],
            pattern.drop_first()[k],
            respect_case,
        ) by {
            assert(at[0] < at[k + 1]);
            assert(0 <= at[0]);
        }
        assert forall|j: int, k: int| 0 <= j < k < rest.len() implies (#[trigger] rest[j]) < (
        #[trigger] rest[k]) by {
            assert(at[j + 1] < at[k + 1]);
        }
        lemma_places_are_in_order(choice.drop_first(), pattern.drop_first(), rest, respect_case);
    } else {
        let rest = Seq::new(at.len(), |k: int| at[k] - 1);
        assert(spec_same_letter(choice[at[0]], pattern[0], respect_case));
        assert(at[0] >= 1);
        assert forall|k: int| 0 <= k < rest.len() implies 0 <= (#[trigger] rest[k])
            < choice.drop_first().len() && spec_same_letter(
            choice.drop_first()[rest[k]],
            pattern[k],
            respect_case,
        ) by {
            if k > 0 {
                assert(at[0] < at[k]);
            }
        }
        assert forall|j: int, k: int| 0 <= j < k < rest.len() implies (#[trigger] rest[j]) < (
        #[trigger] rest[k]) by {
            assert(at[j] < at[k]);
        }
        lemma_places_are_in_order(choice.drop_first(), pattern, rest, respect_case);
    }
}

/// Where the characters of the pattern stand in the choice in their order,
/// each in its own case, the leftmost positions are one for each character
/// of the pattern, from left to right, each on the very character.
pub proof fn lemma_leftmost_shows(choice: Seq<char>, pattern: Seq<char>, first: nat)
    requires
        spec_in_order(choice, pattern, true),
        first + choice.len() <= usize::MAX,
    ensures
        spec_leftmost(choice, pattern, first).len() == pattern.len(),
        forall|k: int|
            0 <= k < pattern.len() ==> first <= (#[trigger] spec_leftmost(choice, pattern, first)[k])
                < first + choice.len() && choice[spec_leftmost(choice, pattern, first)[k] - first]
                == pattern[k],
        forall|j: int, k: int|
            0 <= j < k < pattern.len() ==> (#[trigger] spec_leftmost(choice, pattern, first)[j]) < (
            #[trigger] spec_leftmost(choice, pattern, first)[k]),
    decreases choice.len(),
{
    let here = spec_leftmost(choice, pattern, first);
    if pattern.len() == 0 || choice.len() == 0 {
    } else if choice[0] == pattern[0] {
        let rest = spec_leftmost(choice.drop_first(), pattern.drop_first(), first + 1);
        lemma_leftmost_shows(choice.drop_first(), pattern.drop_first(), first + 1);
        assert forall|k: int| 0 <= k < pattern.len() implies first <= (#[trigger] here[k]) < first
            + choice.len() && choice[here[k] - first] == pattern[k] by {
            if k > 0 {
                assert(here[k] == rest[k - 1]);
                assert(pattern.drop_first()[k - 1] == pattern[k]);
            }
        }
        assert forall|j: int, k: int| 0 <= j < k < pattern.len() implies (#[trigger] here[j]) < (
        #[trigger] here[k]) by {
            assert(here[k] == rest[k - 1]);
            if j > 0 {
                assert(here[j] == rest[j - 1]);
            }
        }
    } else {
        let rest = spec_leftmost(choice.drop_first(), pattern, first + 1);
        lemma_leftmost_shows(choice.drop_first(), pattern, first + 1);
        assert forall|k: int| 0 <= k < pattern.len() implies first <= (#[trigger] here[k]) < first
            + choice.len() && choice[here[k] - first] == pattern[k] by {
            assert(here[k] == rest[k]);
        }
    }
}

/// Characters that stand in the choice in their order, each in its own
/// case, stand there in their order all the more where case does not count.
pub proof fn lemma_in_order_without_case(choice: Seq<char>, pattern: Seq<char>)
    requires
        spec_in_order(choice, pattern, true),
        choice.len() <= usize::MAX,
    ensures
        spec_in_order(choice, pattern, false),
{
    lemma_leftmost_shows(choice, pattern, 0);
    let left = spec_leftmost(choice, pattern, 0);
    let places = Seq::new(left.len(), |k: int| left[k] as int);
    assert forall|k: int| 0 <= k < places.len() implies 0 <= (#[trigger] places[k]) < choice.len()
        && spec_same_letter(choice[places[k]], pattern[k], false) by {
        assert(choice[left[k] - 0] == pattern[k]);
    }
    assert forall|j: int, k: int| 0 <= j < k < places.len() implies (#[trigger] places[j]) < (
    #[trigger] places[k]) by {
        assert(left[j] < left[k]);
    }
    lemma_places_are_in_order(choice, pattern, places, false);
}

/// Positions that show the pattern in the choice show that its characters
/// stand there in their order, each in its own case.
pub proof fn lemma_shown_is_in_order(choice: Seq<char>, pattern: Seq<char>, at: Seq<usize>)
    requires
        spec_shows_pattern(choice, pattern, at),
    ensures
        spec_in_order(choice, pattern, true),
{
    let places = Seq::new(at.len(), |k: int| at[k] as int);
    assert forall|j: int, k: int| 0 <= j < k < places.len() implies (#[trigger] places[j]) < (
    #[trigger] places[k]) by {
        assert(at[j] < at[k]);
    }
    lemma_places_are_in_order(choice, pattern, places, true);
}

/// Where the characters of the pattern stand in the choice in their order,
/// each of them stands in the choice.
pub proof fn lemma_in_order_holds_each(
    choice: Seq<char>,
    pattern: Seq<char>,
    respect_case: bool,
    k: int,
)
    requires
        spec_in_order(choice, pattern, respect_case),
        0 <= k < pattern.len(),
    ensures
        exists|i: int|
            0 <= i < choice.len() && spec_same_letter(#[trigger] choice[i], pattern[k], respect_case),
    decreases choice.len(),
{
    if choice.len() > 0 {
        let rest = choice.drop_first();
        if spec_same_letter(choice[0], pattern[0], respect_case) {
            if k > 0 {
                lemma_in_order_holds_each(rest, pattern.drop_first(), respect_case, k - 1);
                let i = choose|i: int|
                    0 <= i < rest.len() && spec_same_letter(
                        #[trigger] rest[i],
                        pattern.drop_first()[k - 1],
                        respect_case,
                    );
                assert(choice[i + 1] == rest[i]);
            }
        } else {
            lemma_in_order_holds_each(rest, pattern, respect_case, k);
            let i = choose|i: int|
                0 <= i < rest.len() && spec_same_letter(#[trigger] rest[i], pattern[k], respect_case);
            assert(choice[i + 1] == rest[i]);
        }
    }
}

/// Where case counts, the first skim algorithm gives no match unless the
/// characters of the pattern stand in the choice in their order, each in
/// its own case.
pub proof fn lemma_first_skim_respects_case(
    case: CaseMatching,
    budget: usize,
    choice: Seq<char>,
    pattern: Seq<char>,
)
    requires
        spec_respects_case(case, pattern),
        !spec_in_order(choice, pattern, true),
    ensures
        spec_fuzzy_match(FuzzyAlgorithm::SkimV1, case, budget, choice, pattern) is None,
{
    match spec_held_to_case(choice, pattern, skim_v1_outcome(choice, pattern)) {
        Some((_, at)) => {
            lemma_shown_is_in_order(choice, pattern, at);
        },
        None => {},
    }
}

/// Whether a match is owed: the pattern is empty, or its characters stand
/// in the choice in their order, as the case mode counts them, and the
/// attempt is within the budget and, for the structural algorithm, within
/// its reach.
pub open spec fn spec_match_owed(
    algorithm: FuzzyAlgorithm,
    case: CaseMatching,
    budget: usize,
    choice: Seq<char>,
    pattern: Seq<char>,
) -> bool {
    ||| pattern.len() == 0
    ||| {
        &&& choice.len() > 0
        &&& spec_elements(choice, pattern) <= budget
        &&& spec_in_order(choice, pattern, spec_respects_case(case, pattern))
        &&& algorithm == FuzzyAlgorithm::Clangd ==> spec_clangd_load(choice, pattern) < CLANGD_REACH
    }
}

/// Whether the positions show the pattern in the choice.
fn shows_pattern(text: &Vec<char>, wanted: &Vec<char>, at: &Vec<usize>) -> (shown: bool)
    ensures
        shown == spec_shows_pattern(text@, wanted@, at@),
{
    if at.len() != wanted.len() {
        return false;
    }
    let mut k: usize = 0;
    while k < at.len()
        invariant
            k <= at.len(),
            at@.len() == wanted@.len(),
            forall|i: int|
                0 <= i < k ==> (#[trigger] at@[i]) < text@.len() && text@[at@[i] as int] == wanted@[i],
            forall|i: int, j: int| 0 <= i < j < k ==> (#[trigger] at@[i]) < (#[trigger] at@[j]),
        decreases at.len() - k,
    {
        let here = at[k];
        if here >= text.len() || text[here] != wanted[k] {
            assert(!((#[trigger] at@[k as int]) < text@.len() && text@[at@[k as int] as int]
                == wanted@[k as int]));
            return false;
        }
        if k > 0 && at[k - 1] >= here {
            assert(!(at@[k - 1] < at@[k as int]));
            return false;
        }
        proof {
            assert forall|i: int, j: int| 0 <= i < j < k + 1 implies (#[trigger] at@[i]) < (
            #[trigger] at@[j]) by {
                if j == k && i < k - 1 {
                    assert(at@[i] < at@[k - 1]);
                }
            }
        }
        k += 1;
    }
    true
}

/// The leftmost positions at which the characters of `wanted` stand in
/// `text` in their order, each in its own case, if they stand there so.
pub fn leftmost_places(text: &Vec<char>, wanted: &Vec<char>) -> (places: Option<Vec<usize>>)
    ensures
        match places {
            Some(at) => spec_in_order(text@, wanted@, true) && at@ == spec_leftmost(
                text@,
                wanted@,
                0,
            ),
            None => !spec_in_order(text@, wanted@, true),
        },
{
    let n = text.len();
    let m = wanted.len();
    let mut at: Vec<usize> = Vec::new();
    let mut i: usize = 0;
    let mut j: usize = 0;
    proof {
        assert(text@.subrange(0, n as int) =~= text@);
        assert(wanted@.subrange(0, m as int) =~= wanted@);
    }
    while i < n && j < m
        invariant
            i <= n,
            j <= m,
            n == text@.len(),
            m == wanted@.len(),
            spec_in_order(text@, wanted@, true) == spec_in_order(
                text@.subrange(i as int, n as int),
                wanted@.subrange(j as int, m as int),
                true,
            ),
            spec_leftmost(text@, wanted@, 0) == at@ + spec_leftmost(
                text@.subrange(i as int, n as int),
                wanted@.subrange(j as int, m as int),
                i as nat,
            ),
        decreases n - i,
    {
        proof {
            let rest = text@.subrange(i as int, n as int);
            let left = wanted@.subrange(j as int, m as int);
            assert(rest[0] == text@[i as int]);
            assert(left[0] == wanted@[j as int]);
            assert(rest.drop_first() =~= text@.subrange(i + 1, n as int));
            assert(left.drop_first() =~= wanted@.subrange(j + 1, m as int));
        }
        if text[i] == wanted[j] {
            proof {
                let tail = spec_leftmost(
                    text@.subrange(i + 1, n as int),
                    wanted@.subrange(j + 1, m as int),
                    (i + 1) as nat,
                );
                assert(at@ + (seq![i] + tail) =~= at@.push(i) + tail);
            }
            at.push(i);
            j += 1;
        }
        i += 1;
    }
    if j == m {
        proof {
            assert(at@ + Seq::<usize>::empty() =~= at@);
        }
        Some(at)
    } else {
        None
    }
}

/// Holds the answer of a matcher that does not tell the cases apart to the
/// case of the pattern.
///
/// There is a match exactly where the matcher reports one and the
/// characters of the pattern stand in the choice in their order, each in
/// its own case. The score is the matcher's. The positions are the
/// matcher's where they show the pattern in the choice, and the leftmost
/// that show it otherwise.
pub fn hold_to_case(choice: &str, pattern: &str, found: Option<(i64, Vec<usize>)>) -> (kept: Option<
    (i64, Vec<usize>),
>)
    ensures
        spec_found(kept) == spec_held_to_case(choice@, pattern@, spec_found(found)),
        kept is Some <==> found is Some && spec_in_order(choice@, pattern@, true),
        found is Some ==> spec_inside(kept, choice@.len()),
{
    match found {
        Some((score, at)) => {
            let text = chars_of(choice);
            let wanted = chars_of(pattern);
            if shows_pattern(&text, &wanted, &at) {
                proof {
                    lemma_shown_is_in_order(choice@, pattern@, at@);
                }
                Some((score, at))
            } else {
                let count = text.len();
                match leftmost_places(&text, &wanted) {
                    Some(places) => {
                        proof {
                            assert(choice@.len() == count);
                            lemma_leftmost_shows(choice@, pattern@, 0);
                        }
                        Some((score, places))
                    },
                    None => None,
                }
            }
        },
        None => None,
    }
}

/// Whether the structural algorithm can be asked for a choice of `c`
/// characters and a pattern of `p`.
fn clangd_in_reach(c: usize, p: usize) -> (near: bool)
    ensures
        near == (16 * c + 128 * p < CLANGD_REACH),
{
    c < 67108864 && p < 8388608 && 16 * c + 128 * p < CLANGD_REACH
}

/// Whether the case of letters counts when `pattern` is matched under a
/// case mode.
pub fn respects_case(case: CaseMatching, pattern: &str) -> (respects: bool)
    ensures
        respects == spec_respects_case(case, pattern@),
{
    match case {
        CaseMatching::Respect => true,
        CaseMatching::Ignore => false,
        CaseMatching::Smart => {
            for c in it: pattern.chars()
                invariant
                    it.seq() == pattern@,
                    case == CaseMatching::Smart,
                    forall|k: int| 0 <= k < it.index() ==> !spec_is_capital(#[trigger] pattern@[k]),
            {
                if 'A' <= c && c <= 'Z' {
                    assert(spec_is_capital(pattern@[it.index() as int]));
                    return true;
                }
            }
            false
        },
    }
}

/// The score and the matched positions of `pattern` in `choice`.
///
/// The empty pattern matches every choice with score 0 and no position. An
/// empty choice matches no other pattern, and neither does a choice that
/// would take more elements than the budget allows. Everything else is
/// decided by the algorithm.
pub open spec fn spec_fuzzy_match(
    algorithm: FuzzyAlgorithm,
    case: CaseMatching,
    budget: usize,
    choice: Seq<char>,
    pattern: Seq<char>,
) -> Option<(i64, Seq<usize>)> {
    if pattern.len() == 0 {
        Some((0i64, Seq::<usize>::empty()))
    } else if choice.len() == 0 {
        None
    } else if spec_elements(choice, pattern) > budget {
        None
    } else {
        spec_algorithm_outcome(algorithm, case, budget, choice, pattern)
    }
}

/// Whether matching a pattern of `p` characters against a choice of `c`
/// takes more than `budget` elements.
fn over_budget(c: usize, p: usize, budget: usize) -> (over: bool)
    ensures
        over == ((c + 1) * (p + 1) > budget),
{
    if c >= budget || p >= budget {
        assert((c + 1) * (p + 1) > budget) by (nonlinear_arith)
            requires
                c >= budget || p >= budget,
                c >= 0,
                p >= 0,
        ;
        return true;
    }
    let rows: u128 = p as u128 + 1;
    let cols: u128 = c as u128 + 1;
    assert(rows * cols <= 0xffff_ffff_ffff_ffff * 0xffff_ffff_ffff_ffff) by (nonlinear_arith)
        requires
            0 <= rows <= 0xffff_ffff_ffff_ffff,
            0 <= cols <= 0xffff_ffff_ffff_ffff,
    ;
    assert(rows * cols == (c + 1) * (p + 1)) by (nonlinear_arith)
        requires
            rows == p + 1,
            cols == c + 1,
    ;
    rows * cols > budget as u128
}

/// Matches `pattern` against `choice` with the given algorithm.
pub fn fuzzy_match_with(
    algorithm: FuzzyAlgorithm,
    case: CaseMatching,
    budget: usize,
    choice: &str,
    pattern: &str,
) -> (found: Option<(i64, Vec<usize>)>)
    ensures
        spec_found(found) == spec_fuzzy_match(algorithm, case, budget, choice@, pattern@),
        spec_inside(found, choice@.len()),
        found is Some ==> spec_in_order(choice@, pattern@, spec_respects_case(case, pattern@)),
        spec_match_owed(algorithm, case, budget, choice@, pattern@) ==> found is Some,
{
    if pattern.is_empty() {
        return Some((0, Vec::new()));
    } else if choice.is_empty() {
        return None;
    }
    let c = choice.unicode_len();
    let p = pattern.unicode_len();
    if over_budget(c, p, budget) {
        return None;
    }
    let respects = respects_case(case, pattern);
    match algorithm {
        FuzzyAlgorithm::SkimV1 => {
            let found = skim_v1_indices(choice, pattern);
            proof {
                if spec_in_order(choice@, pattern@, true) {
                    lemma_in_order_without_case(choice@, pattern@);
                }
            }
            if respects {
                hold_to_case(choice, pattern, found)
            } else {
                found
            }
        },
        FuzzyAlgorithm::SkimV2 => if respects {
            skim_v2_respecting(choice, pattern, budget)
        } else {
            skim_v2_ignoring(choice, pattern, budget)
        },
        FuzzyAlgorithm::Clangd => if !clangd_in_reach(c, p) {
            None
        } else if respects {
            clangd_respecting(choice, pattern)
        } else {
            clangd_ignoring(choice, pattern)
        },
    }
}

/// The settings of an engine as mathematical values.
pub struct EngineView {
    pub query: Seq<char>,
    pub case: CaseMatching,
    pub algorithm: FuzzyAlgorithm,
    pub budget: usize,
    pub criteria: Seq<RankCriteria>,
}

/// Collects the settings of a fuzzy engine.
pub struct FuzzyEngineBuilder {
    query: String,
    case: CaseMatching,
    algorithm: FuzzyAlgorithm,
    budget: usize,
    rank_builder: Arc<RankBuilder>,
}

impl View for FuzzyEngineBuilder {
    type V = EngineView;

    closed spec fn view(&self) -> EngineView {
        EngineView {
            query: self.query@,
            case: self.case,
            algorithm: self.algorithm,
            budget: self.budget,
            criteria: (*self.rank_builder)@,
        }
    }
}

impl Default for FuzzyEngineBuilder {
    fn default() -> (builder: FuzzyEngineBuilder)
        ensures
            builder@ == (EngineView {
                query: Seq::<char>::empty(),
                case: CaseMatching::Smart,
                algorithm: FuzzyAlgorithm::SkimV2,
                budget: BYTES_1M,
                criteria: crate::rank::spec_default_order(),
            }),
    {
        FuzzyEngineBuilder {
            query: String::new(),
            case: CaseMatching::Smart,
            algorithm: FuzzyAlgorithm::SkimV2,
            budget: BYTES_1M,
            rank_builder: Arc::new(RankBuilder::default()),
        }
    }
}

impl FuzzyEngineBuilder {
    #[verifier::type_invariant]
    closed spec fn well_formed(&self) -> bool {
        self.budget > 0
    }

    /// Sets the query.
    pub fn query(self, query: &str) -> (builder: FuzzyEngineBuilder)
        ensures
            builder@ == (EngineView { query: query@, ..self@ }),
    {
        proof {
            use_type_invariant(&self);
        }
        FuzzyEngineBuilder { query: String::from_str(query), ..self }
    }

    /// Sets the case mode.
    pub fn case(self, case: CaseMatching) -> (builder: FuzzyEngineBuilder)
        ensures
            builder@ == (EngineView { case: case, ..self@ }),
    {
        proof {
            use_type_invariant(&self);
        }
        FuzzyEngineBuilder { case, ..self }
    }

    /// Sets the scoring algorithm.
    pub fn algorithm(self, algorithm: FuzzyAlgorithm) -> (builder: FuzzyEngineBuilder)
        ensures
            builder@ == (EngineView { algorithm: algorithm, ..self@ }),
    {
        proof {
            use_type_invariant(&self);
        }
        FuzzyEngineBuilder { algorithm, ..self }
    }

    /// Sets the order of the tie-break criteria.
    pub fn rank_builder(self, rank_builder: Arc<RankBuilder>) -> (builder: FuzzyEngineBuilder)
        ensures
            builder@ == (EngineView { criteria: (*rank_builder)@, ..self@ }),
    {
        proof {
            use_type_invariant(&self);
        }
        FuzzyEngineBuilder { rank_builder, ..self }
    }

    /// Sets the number of elements that one match attempt may take.
    pub fn element_budget(self, budget: usize) -> (builder: FuzzyEngineBuilder)
        requires
            budget > 0,
        ensures
            builder@ == (EngineView { budget: budget, ..self@ }),
    {
        proof {
            use_type_invariant(&self);
        }
        FuzzyEngineBuilder { budget, ..self }
    }

    /// The engine with the settings collected so far.
    pub fn build(self) -> (engine: FuzzyEngine)
        ensures
            engine@ == self@,
    {
        proof {
            use_type_invariant(&self);
        }
        FuzzyEngine {
            query: self.query,
            case: self.case,
            algorithm: self.algorithm,
            budget: self.budget,
            rank_builder: self.rank_builder,
        }
    }
}

/// The byte range that stands for a whole text.
pub open spec fn spec_whole(text: Seq<char>) -> (usize, usize) {
    (0usize, encode_utf8(text).len() as usize)
}

/// The byte ranges of a candidate in which a match is looked for, in the
/// order in which they are tried.
pub open spec fn spec_eligible(item: CandidateView) -> Seq<(usize, usize)> {
    match item.ranges {
        Some(r) => r,
        None => seq![spec_whole(item.text)],
    }
}

/// The position in `text`, counted in characters, at which a byte range starts.
pub open spec fn spec_field_start(text: Seq<char>, range: (usize, usize)) -> int {
    spec_char_offset(text, spec_clip(range.0, encode_utf8(text).len()))
}

/// The position in `text`, counted in characters, at which a byte range ends.
pub open spec fn spec_field_end(text: Seq<char>, range: (usize, usize)) -> int {
    spec_char_offset(text, spec_clip(range.1, encode_utf8(text).len()))
}

/// The characters of `text` that a byte range selects.
pub open spec fn spec_field(text: Seq<char>, range: (usize, usize)) -> Seq<char> {
    text.subrange(spec_field_start(text, range), spec_field_end(text, range))
}

/// Positions inside a field, moved to where the field starts in the text.
pub open spec fn spec_shift(at: Seq<usize>, by: int) -> Seq<usize> {
    at.map_values(|i: usize| (i + by) as usize)
}

/// The match of the query inside one byte range of `text`, with positions
/// that count from the start of `text`.
pub open spec fn spec_match_range(engine: EngineView, text: Seq<char>, range: (usize, usize)) -> Option<
    (i64, Seq<usize>),
> {
    match spec_fuzzy_match(
        engine.algorithm,
        engine.case,
        engine.budget,
        spec_field(text, range),
        engine.query,
    ) {
        Some((score, at)) => Some((score, spec_shift(at, spec_field_start(text, range)))),
        None => None,
    }
}

/// The match inside the first of the ranges that has one. Ranges behind it are
/// not looked at, whatever they would score.
pub open spec fn spec_first_match(
    engine: EngineView,
    text: Seq<char>,
    ranges: Seq<(usize, usize)>,
) -> Option<(i64, Seq<usize>)>
    decreases ranges.len(),
{
    if ranges.len() == 0 {
        None
    } else {
        match spec_match_range(engine, text, ranges[0]) {
            Some(m) => Some(m),
            None => spec_first_match(engine, text, ranges.drop_first()),
        }
    }
}

/// The first of the positions, or 0 where there is none.
pub open spec fn spec_first(at: Seq<usize>) -> usize {
    if at.len() > 0 {
        at[0]
    } else {
        0
    }
}

/// The last of the positions, or 0 where there is none.
pub open spec fn spec_last(at: Seq<usize>) -> usize {
    if at.len() > 0 {
        at[at.len() - 1]
    } else {
        0
    }
}

/// The result of matching a candidate with insertion index `index`.
///
/// The rank is built from the score, cut to 32 bits, the first and the last
/// matched position, and the length of the candidate's text in bytes.
pub open spec fn spec_match_item(engine: EngineView, item: CandidateView, index: usize) -> Option<
    MatchResultView,
> {
    match spec_first_match(engine, item.text, spec_eligible(item)) {
        Some((score, at)) => Some(
            MatchResultView {
                index,
                rank: spec_rank(
                    engine.criteria,
                    score as i32,
                    spec_first(at),
                    spec_last(at),
                    encode_utf8(item.text).len() as usize,
                    index,
                ),
                matched: at,
            },
        ),
        None => None,
    }
}

/// Whether the characters of the query stand, in their order and as the case
/// mode counts them, in what a byte range selects of `text`.
pub open spec fn spec_query_in_range(engine: EngineView, text: Seq<char>, range: (usize, usize)) -> bool {
    spec_in_order(
        spec_field(text, range),
        engine.query,
        spec_respects_case(engine.case, engine.query),
    )
}

/// Whether a match is owed inside a byte range of `text`.
pub open spec fn spec_owed_in_range(engine: EngineView, text: Seq<char>, range: (usize, usize)) -> bool {
    spec_match_owed(
        engine.algorithm,
        engine.case,
        engine.budget,
        spec_field(text, range),
        engine.query,
    )
}

/// Whether each of the positions lies in `text` and inside the byte range.
pub open spec fn spec_within(at: Seq<usize>, text: Seq<char>, range: (usize, usize)) -> bool {
    &&& spec_field_end(text, range) <= text.len()
    &&& forall|i: int|
        0 <= i < at.len() ==> spec_field_start(text, range) <= #[trigger] at[i] < spec_field_end(
            text,
            range,
        )
}

/// Where none of the first `k` ranges has a match, the first match is the
/// first match among the ranges from `k` on.
proof fn lemma_first_match_skips(
    engine: EngineView,
    text: Seq<char>,
    ranges: Seq<(usize, usize)>,
    k: int,
)
    requires
        0 <= k <= ranges.len(),
        forall|j: int| 0 <= j < k ==> spec_match_range(engine, text, #[trigger] ranges[j]) is None,
    ensures
        spec_first_match(engine, text, ranges) == spec_first_match(
            engine,
            text,
            ranges.subrange(k, ranges.len() as int),
        ),
    decreases k,
{
    if k == 0 {
        assert(ranges.subrange(0, ranges.len() as int) =~= ranges);
    } else {
        let rest = ranges.drop_first();
        assert(spec_match_range(engine, text, ranges[0]) is None);
        assert forall|j: int| 0 <= j < k - 1 implies spec_match_range(
            engine,
            text,
            #[trigger] rest[j],
        ) is None by {
            assert(rest[j] == ranges[j + 1]);
        }
        lemma_first_match_skips(engine, text, rest, k - 1);
        assert(rest.subrange(k - 1, rest.len() as int) =~= ranges.subrange(k, ranges.len() as int));
    }
}

/// Under the smart case mode a pattern with an ASCII capital letter is
/// matched as under the mode that respects case, and a pattern without one
/// as under the mode that ignores it.
pub proof fn lemma_smart_case(
    algorithm: FuzzyAlgorithm,
    budget: usize,
    choice: Seq<char>,
    pattern: Seq<char>,
)
    ensures
        spec_fuzzy_match(algorithm, CaseMatching::Smart, budget, choice, pattern)
            == spec_fuzzy_match(
            algorithm,
            if spec_respects_case(CaseMatching::Smart, pattern) {
                CaseMatching::Respect
            } else {
                CaseMatching::Ignore
            },
            budget,
            choice,
            pattern,
        ),
{
}

/// The empty query matches every candidate that has a range to look in, with
/// score 0 and no matched position.
pub proof fn lemma_empty_query_matches(engine: EngineView, item: CandidateView, index: usize)
    requires
        engine.query.len() == 0,
        spec_eligible(item).len() > 0,
    ensures
        spec_match_item(engine, item, index) == Some(
            MatchResultView {
                index,
                rank: spec_rank(
                    engine.criteria,
                    0i32,
                    0usize,
                    0usize,
                    encode_utf8(item.text).len() as usize,
                    index,
                ),
                matched: Seq::<usize>::empty(),
            },
        ),
{
    let range = spec_eligible(item)[0];
    let at = spec_shift(Seq::<usize>::empty(), spec_field_start(item.text, range));
    assert(at =~= Seq::<usize>::empty());
    assert(spec_match_range(engine, item.text, range) == Some((0i64, at)));
    assert(0i64 as i32 == 0i32);
}

/// A candidate with an empty text matches no query but the empty one.
pub proof fn lemma_empty_text_never_matches(engine: EngineView, item: CandidateView, index: usize)
    requires
        item.text.len() == 0,
        engine.query.len() > 0,
    ensures
        spec_match_item(engine, item, index) is None,
{
    let ranges = spec_eligible(item);
    assert forall|j: int| 0 <= j < ranges.len() implies spec_match_range(
        engine,
        item.text,
        #[trigger] ranges[j],
    ) is None by {
        assert(spec_field(item.text, ranges[j]).len() == 0);
    }
    lemma_first_match_skips(engine, item.text, ranges, ranges.len() as int);
    assert(ranges.subrange(ranges.len() as int, ranges.len() as int) =~= Seq::<
        (usize, usize),
    >::empty());
}

/// Matches candidates against one query with one algorithm.
pub struct FuzzyEngine {
    query: String,
    case: CaseMatching,
    algorithm: FuzzyAlgorithm,
    budget: usize,
    rank_builder: Arc<RankBuilder>,
}

impl View for FuzzyEngine {
    type V = EngineView;

    closed spec fn view(&self) -> EngineView {
        EngineView {
            query: self.query@,
            case: self.case,
            algorithm: self.algorithm,
            budget: self.budget,
            criteria: (*self.rank_builder)@,
        }
    }
}

impl FuzzyEngine {
    #[verifier::type_invariant]
    closed spec fn well_formed(&self) -> bool {
        self.budget > 0
    }

    /// A builder with the default settings.
    pub fn builder() -> (builder: FuzzyEngineBuilder)
        ensures
            builder@ == (EngineView {
                query: Seq::<char>::empty(),
                case: CaseMatching::Smart,
                algorithm: FuzzyAlgorithm::SkimV2,
                budget: BYTES_1M,
                criteria: crate::rank::spec_default_order(),
            }),
    {
        FuzzyEngineBuilder::default()
    }

    /// Matches `pattern` against `choice` with the algorithm of this engine.
    pub fn fuzzy_match(&self, choice: &str, pattern: &str) -> (found: Option<(i64, Vec<usize>)>)
        ensures
            spec_found(found) == spec_fuzzy_match(
                self@.algorithm,
                self@.case,
                self@.budget,
                choice@,
                pattern@,
            ),
            spec_inside(found, choice@.len()),
            found is Some ==> spec_in_order(
                choice@,
                pattern@,
                spec_respects_case(self@.case, pattern@),
            ),
            spec_match_owed(self@.algorithm, self@.case, self@.budget, choice@, pattern@)
                ==> found is Some,
    {
        fuzzy_match_with(self.algorithm, self.case, self.budget, choice, pattern)
    }

    /// Matches the query inside one byte range of `text`.
    fn match_range(&self, text: &str, range: (usize, usize)) -> (found: Option<(i64, Vec<usize>)>)
        requires
            spec_range_fits(text@, range),
        ensures
            spec_found(found) == spec_match_range(self@, text@, range),
            match found {
                Some((_, at)) => spec_within(at@, text@, range) && spec_query_in_range(
                    self@,
                    text@,
                    range,
                ),
                None => !spec_owed_in_range(self@, text@, range),
            },
    {
        let len = text.as_bytes().len();
        let start = clip(range.0, len);
        let end = clip(range.1, len);
        proof {
            lemma_char_offsets(text@, start as int, end as int);
            lemma_chars_fit_bytes(text@);
        }
        let (before, field) = slice_at(text, start, end);
        match self.fuzzy_match(field, self.query.as_str()) {
            Some((score, at)) => {
                let offset = before.unicode_len();
                if offset == 0 {
                    proof {
                        assert(at@ =~= spec_shift(at@, 0));
                    }
                    return Some((score, at));
                }
                let ghost inner = at@;
                let mut moved: Vec<usize> = Vec::new();
                let mut k: usize = 0;
                while k < at.len()
                    invariant
                        k <= at.len(),
                        at@ == inner,
                        moved@.len() == k,
                        offset + field@.len() <= text@.len() <= usize::MAX,
                        forall|i: int| 0 <= i < inner.len() ==> #[trigger] inner[i] < field@.len(),
                        forall|i: int| 0 <= i < k ==> moved@[i] == inner[i] + offset,
                    decreases at.len() - k,
                {
                    moved.push(at[k] + offset);
                    k += 1;
                }
                proof {
                    assert(moved@ =~= spec_shift(inner, offset as int));
                }
                Some((score, moved))
            },
            None => None,
        }
    }

    /// Matches a candidate, whose insertion index is `index`, against the query.
    ///
    /// The byte ranges of the candidate are tried in their order, and the
    /// first that matches decides; a candidate without ranges is matched on
    /// its whole text. There is a match only where the characters of the
    /// query stand in one of the ranges in their order, as the case mode
    /// counts them, and every matched position lies inside the range that
    /// matched, counted in characters of the whole text. There is a match
    /// wherever one is owed inside one of the ranges.
    pub fn match_item(&self, item: &Candidate, index: usize) -> (found: Option<MatchResult>)
        ensures
            spec_result(found) == spec_match_item(self@, item@, index),
            crate::rank::spec_is_order(self@.criteria),
            match found {
                Some(r) => exists|k: int|
                    0 <= k < spec_eligible(item@).len() && spec_within(
                        r.matched@,
                        item@.text,
                        #[trigger] spec_eligible(item@)[k],
                    ) && spec_query_in_range(self@, item@.text, spec_eligible(item@)[k]),
                None => forall|k: int|
                    0 <= k < spec_eligible(item@).len() ==> !spec_owed_in_range(
                        self@,
                        item@.text,
                        #[trigger] spec_eligible(item@)[k],
                    ),
            },
    {
        proof {
            use_type_invariant(&*self.rank_builder);
        }
        let text = item.text();
        let len = text.as_bytes().len();
        let whole = vec![(0usize, len)];
        let ranges = match item.matching_ranges() {
            Some(r) => r,
            None => &whole,
        };
        proof {
            assert(ranges@ =~= spec_eligible(item@));
            if item@.ranges is None {
                vstd::utf8::encode_utf8_valid_utf8(text@);
                vstd::utf8::is_char_boundary_start_end_of_seq(encode_utf8(text@));
                assert(spec_range_fits(text@, ranges@[0]));
            }
        }
        let mut matched: Option<(i64, Vec<usize>)> = None;
        let mut k: usize = 0;
        while k < ranges.len() && matched.is_none()
            invariant
                k <= ranges.len(),
                spec_ranges_fit(text@, ranges@),
                match matched {
                    Some((_, at)) => k > 0 && spec_found(matched) == spec_match_range(
                        self@,
                        text@,
                        ranges@[k - 1],
                    ) && spec_within(at@, text@, ranges@[k - 1]) && spec_query_in_range(
                        self@,
                        text@,
                        ranges@[k - 1],
                    ) && forall|j: int|
                        0 <= j < k - 1 ==> spec_match_range(self@, text@, #[trigger] ranges@[j])
                            is None,
                    None => forall|j: int|
                        0 <= j < k ==> spec_match_range(self@, text@, #[trigger] ranges@[j]) is None
                            && !spec_owed_in_range(self@, text@, ranges@[j]),
                },
            decreases ranges.len() - k, matched.is_none() as int,
        {
            matched = self.match_range(text, ranges[k]);
            k += 1;
        }
        proof {
            let first = if matched.is_some() { k - 1 } else { k as int };
            lemma_first_match_skips(self@, text@, ranges@, first);
            let rest = ranges@.subrange(first, ranges@.len() as int);
            if matched.is_some() {
                assert(rest[0] == ranges@[first]);
            }
        }
        match matched {
            Some((score, at)) => {
                let begin = if at.len() > 0 { at[0] } else { 0 };
                let end = if at.len() > 0 { at[at.len() - 1] } else { 0 };
                let rank = self.rank_builder.build_rank(
                    #[verifier::truncate] (score as i32),
                    begin,
                    end,
                    len,
                    index,
                );
                Some(MatchResult { index, rank, matched: at })
            },
            None => None,
        }
    }

    /// A short text that names the engine and its query.
    pub fn describe(&self) -> (text: String)
        ensures
            text@ == "(Fuzzy: "@ + self@.query + ")"@,
    {
        String::from_str("(Fuzzy: ").concat(self.query.as_str()).concat(")")
    }
}

} // verus!
