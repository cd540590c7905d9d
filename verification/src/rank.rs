//! The order in which match results are shown.
//!
//! A rank is a score and four tie-break keys. A higher score comes first;
//! among equal scores the keys decide, each one in turn, a lower key first.

use crate::options::ConfigError;
use vstd::prelude::*;

verus! {

/// A property of a match that breaks a tie between equal scores.
#[derive(Debug, Clone, Copy, PartialEq, Eq, Structural)]
pub enum RankCriteria {
    /// Where the match starts.
    Begin,
    /// How far the match reaches from its first to its last position.
    Span,
    /// How long the candidate is.
    Length,
    /// When the candidate was added to the pool.
    Index,
}

/// The distance from `begin` to `end`, and nothing where `end` lies before `begin`.
pub open spec fn spec_span(begin: usize, end: usize) -> usize {
    if end >= begin {
        (end - begin) as usize
    } else {
        0
    }
}

/// The key that a criterion reads off a match.
pub open spec fn spec_key(
    criterion: RankCriteria,
    begin: usize,
    end: usize,
    length: usize,
    index: usize,
) -> usize {
    match criterion {
        RankCriteria::Begin => begin,
        RankCriteria::Span => spec_span(begin, end),
        RankCriteria::Length => length,
        RankCriteria::Index => index,
    }
}

/// Whether the four criteria are each named once.
pub open spec fn spec_is_order(criteria: Seq<RankCriteria>) -> bool {
    &&& criteria.len() == 4
    &&& forall|i: int, j: int| 0 <= i < j < 4 ==> criteria[i] != criteria[j]
}

/// The order that is used where none is configured.
pub open spec fn spec_default_order() -> Seq<RankCriteria> {
    seq![RankCriteria::Begin, RankCriteria::Span, RankCriteria::Length, RankCriteria::Index]
}

/// A rank as a mathematical value.
pub struct RankView {
    pub score: int,
    pub ties: Seq<usize>,
}

/// The rank of a match under an order of criteria.
pub open spec fn spec_rank(
    criteria: Seq<RankCriteria>,
    score: i32,
    begin: usize,
    end: usize,
    length: usize,
    index: usize,
) -> RankView {
    RankView {
        score: score as int,
        ties: Seq::new(4, |k: int| spec_key(criteria[k], begin, end, length, index)),
    }
}

/// Whether `a` is shown before `b`.
pub open spec fn spec_precedes(a: RankView, b: RankView) -> bool {
    ||| a.score > b.score
    ||| a.score == b.score && exists|k: int|
        0 <= k < 4 && #[trigger] a.ties[k] < b.ties[k] && forall|j: int|
            0 <= j < k ==> a.ties[j] == b.ties[j]
}

/// The place of a match in the order of results.
#[derive(Debug, Clone, Copy)]
pub struct Rank {
    pub score: i32,
    pub ties: [usize; 4],
}

impl View for Rank {
    type V = RankView;

    open spec fn view(&self) -> RankView {
        RankView { score: self.score as int, ties: self.ties@ }
    }
}

impl Rank {
    /// Whether this rank is shown before `other`.
    pub fn precedes(&self, other: &Rank) -> (before: bool)
        ensures
            before == spec_precedes(self@, other@),
    {
        if self.score != other.score {
            return self.score > other.score;
        }
        let mut k: usize = 0;
        while k < 4
            invariant
                k <= 4,
                self.score == other.score,
                forall|j: int| 0 <= j < k ==> self.ties@[j] == other.ties@[j],
            decreases 4 - k,
        {
            if self.ties[k] != other.ties[k] {
                let before = self.ties[k] < other.ties[k];
                proof {
                    let a = self@;
                    let b = other@;
                    if before {
                        assert(0 <= k < 4 && a.ties[k as int] < b.ties[k as int]);
                    } else {
                        assert forall|i: int|
                            0 <= i < 4 && #[trigger] a.ties[i] < b.ties[i] implies !(forall|j: int|
                            0 <= j < i ==> a.ties[j] == b.ties[j]) by {
                            if i > k {
                                assert(a.ties[k as int] != b.ties[k as int]);
                            }
                        }
                    }
                }
                return before;
            }
            k += 1;
        }
        false
    }

    /// Whether the two ranks hold the same score and the same keys.
    pub fn same(&self, other: &Rank) -> (equal: bool)
        ensures
            equal == (self@ == other@),
    {
        let equal = self.score == other.score && self.ties[0] == other.ties[0] && self.ties[1]
            == other.ties[1] && self.ties[2] == other.ties[2] && self.ties[3] == other.ties[3];
        proof {
            if equal {
                assert(self.ties@ =~= other.ties@);
            }
        }
        equal
    }
}

/// No rank is shown before itself.
pub proof fn lemma_precedes_irreflexive(a: RankView)
    ensures
        !spec_precedes(a, a),
{
}

/// Of two ranks with four keys each, one is shown before the other unless they
/// are the same rank, and never both.
pub proof fn lemma_precedes_total(a: RankView, b: RankView)
    requires
        a.ties.len() == 4,
        b.ties.len() == 4,
    ensures
        spec_precedes(a, b) || spec_precedes(b, a) || a == b,
        !(spec_precedes(a, b) && spec_precedes(b, a)),
        !(spec_precedes(a, b) && a == b),
{
    if a.score == b.score {
        if a.ties[0] != b.ties[0] {
            assert(a.ties[0] < b.ties[0] || b.ties[0] < a.ties[0]);
        } else if a.ties[1] != b.ties[1] {
            assert(a.ties[1] < b.ties[1] || b.ties[1] < a.ties[1]);
        } else if a.ties[2] != b.ties[2] {
            assert(a.ties[2] < b.ties[2] || b.ties[2] < a.ties[2]);
        } else if a.ties[3] != b.ties[3] {
            assert(a.ties[3] < b.ties[3] || b.ties[3] < a.ties[3]);
        } else {
            assert(a.ties =~= b.ties);
        }
    }
}

/// What is shown before a rank is shown before everything that this rank is
/// shown before.
pub proof fn lemma_precedes_transitive(a: RankView, b: RankView, c: RankView)
    requires
        spec_precedes(a, b),
        spec_precedes(b, c),
    ensures
        spec_precedes(a, c),
{
    if a.score == b.score && b.score == c.score {
        let k1 = choose|k: int|
            0 <= k < 4 && #[trigger] a.ties[k] < b.ties[k] && forall|j: int|
                0 <= j < k ==> a.ties[j] == b.ties[j];
        let k2 = choose|k: int|
            0 <= k < 4 && #[trigger] b.ties[k] < c.ties[k] && forall|j: int|
                0 <= j < k ==> b.ties[j] == c.ties[j];
        let k = if k1 <= k2 { k1 } else { k2 };
        assert(a.ties[k] < c.ties[k]);
    }
}

/// An order of criteria names the insertion index at some place.
pub proof fn lemma_order_holds_index(criteria: Seq<RankCriteria>) -> (k: int)
    requires
        spec_is_order(criteria),
    ensures
        0 <= k < 4,
        criteria[k] == RankCriteria::Index,
{
    if criteria[0] == RankCriteria::Index {
        0
    } else if criteria[1] == RankCriteria::Index {
        1
    } else if criteria[2] == RankCriteria::Index {
        2
    } else {
        assert(criteria[0] != criteria[1] && criteria[0] != criteria[2] && criteria[1]
            != criteria[2]);
        assert(criteria[3] != criteria[0] && criteria[3] != criteria[1] && criteria[3]
            != criteria[2]);
        3
    }
}

/// Under one order of criteria, matches of candidates with different
/// insertion indices never get the same rank: no two results tie.
pub proof fn lemma_rank_tells_indices_apart(
    criteria: Seq<RankCriteria>,
    score1: i32,
    begin1: usize,
    end1: usize,
    length1: usize,
    index1: usize,
    score2: i32,
    begin2: usize,
    end2: usize,
    length2: usize,
    index2: usize,
)
    requires
        spec_is_order(criteria),
        index1 != index2,
    ensures
        spec_rank(criteria, score1, begin1, end1, length1, index1) != spec_rank(
            criteria,
            score2,
            begin2,
            end2,
            length2,
            index2,
        ),
{
    let k = lemma_order_holds_index(criteria);
    let r1 = spec_rank(criteria, score1, begin1, end1, length1, index1);
    let r2 = spec_rank(criteria, score2, begin2, end2, length2, index2);
    assert(r1.ties[k] == index1);
    assert(r2.ties[k] == index2);
}

/// Under the default order a result is shown before another exactly where it
/// has the higher score or, with the same score, the earlier start or, with
/// that the same too, the shorter span, then the shorter candidate, then the
/// lower insertion index.
pub proof fn lemma_default_order(
    score1: i32,
    begin1: usize,
    end1: usize,
    length1: usize,
    index1: usize,
    score2: i32,
    begin2: usize,
    end2: usize,
    length2: usize,
    index2: usize,
)
    ensures
        spec_precedes(
            spec_rank(spec_default_order(), score1, begin1, end1, length1, index1),
            spec_rank(spec_default_order(), score2, begin2, end2, length2, index2),
        ) <==> {
            ||| score1 > score2
            ||| score1 == score2 && begin1 < begin2
            ||| score1 == score2 && begin1 == begin2 && spec_span(begin1, end1) < spec_span(
                begin2,
                end2,
            )
            ||| score1 == score2 && begin1 == begin2 && spec_span(begin1, end1) == spec_span(
                begin2,
                end2,
            ) && length1 < length2
            ||| score1 == score2 && begin1 == begin2 && spec_span(begin1, end1) == spec_span(
                begin2,
                end2,
            ) && length1 == length2 && index1 < index2
        },
{
    let a = spec_rank(spec_default_order(), score1, begin1, end1, length1, index1);
    let b = spec_rank(spec_default_order(), score2, begin2, end2, length2, index2);
    assert(a.ties[0] == begin1 && b.ties[0] == begin2);
    assert(a.ties[1] == spec_span(begin1, end1) && b.ties[1] == spec_span(begin2, end2));
    assert(a.ties[2] == length1 && b.ties[2] == length2);
    assert(a.ties[3] == index1 && b.ties[3] == index2);
    if score1 == score2 {
        if begin1 != begin2 {
            if begin1 < begin2 {
                assert(a.ties[0] < b.ties[0]);
            }
        } else if a.ties[1] != b.ties[1] {
            if a.ties[1] < b.ties[1] {
                assert(a.ties[1] < b.ties[1]);
            }
        } else if length1 != length2 {
            if length1 < length2 {
                assert(a.ties[2] < b.ties[2]);
            }
        } else if index1 < index2 {
            assert(a.ties[3] < b.ties[3]);
        }
    }
}

/// The order of the tie-break criteria, fixed when a session is set up.
#[derive(Debug, Clone, Copy)]
pub struct RankBuilder {
    criteria: [RankCriteria; 4],
}

impl View for RankBuilder {
    type V = Seq<RankCriteria>;

    closed spec fn view(&self) -> Seq<RankCriteria> {
        self.criteria@
    }
}

impl RankBuilder {
    /// Whether the builder names each criterion once, as every builder does.
    #[verifier::type_invariant]
    pub open spec fn well_formed(&self) -> bool {
        spec_is_order(self@)
    }

    /// Takes an order of criteria, which must name each of the four once.
    pub fn new(criteria: &Vec<RankCriteria>) -> (made: Result<RankBuilder, ConfigError>)
        ensures
            match made {
                Ok(builder) => spec_is_order(criteria@) && builder@ == criteria@,
                Err(e) => !spec_is_order(criteria@) && e == ConfigError::InvalidTieBreak,
            },
    {
        if criteria.len() != 4 {
            return Err(ConfigError::InvalidTieBreak);
        }
        let c0 = criteria[0];
        let c1 = criteria[1];
        let c2 = criteria[2];
        let c3 = criteria[3];
        if c0 == c1 || c0 == c2 || c0 == c3 || c1 == c2 || c1 == c3 || c2 == c3 {
            return Err(ConfigError::InvalidTieBreak);
        }
        let builder = RankBuilder { criteria: [c0, c1, c2, c3] };
        assert(builder.criteria@ =~= criteria@);
        Ok(builder)
    }

    /// The criteria in the order in which they break ties.
    pub fn criteria(&self) -> (order: Vec<RankCriteria>)
        ensures
            order@ == self@,
            spec_is_order(order@),
    {
        proof {
            use_type_invariant(self);
        }
        let order = vec![self.criteria[0], self.criteria[1], self.criteria[2], self.criteria[3]];
        assert(order@ =~= self.criteria@);
        order
    }

    /// The rank of a match with the given score, first and last matched
    /// position, candidate length and insertion index.
    pub fn build_rank(&self, score: i32, begin: usize, end: usize, length: usize, index: usize) -> (rank:
        Rank)
        ensures
            rank@ == spec_rank(self@, score, begin, end, length, index),
            spec_is_order(self@),
    {
        proof {
            use_type_invariant(self);
        }
        let span = if end >= begin { end - begin } else { 0 };
        let mut ties: [usize; 4] = [0, 0, 0, 0];
        let mut k: usize = 0;
        while k < 4
            invariant
                k <= 4,
                span == spec_span(begin, end),
                forall|j: int|
                    0 <= j < k ==> ties@[j] == spec_key(self.criteria@[j], begin, end, length, index),
            decreases 4 - k,
        {
            let key = match self.criteria[k] {
                RankCriteria::Begin => begin,
                RankCriteria::Span => span,
                RankCriteria::Length => length,
                RankCriteria::Index => index,
            };
            ties[k] = key;
            k += 1;
        }
        let rank = Rank { score, ties };
        assert(rank@.ties =~= spec_rank(self@, score, begin, end, length, index).ties);
        rank
    }
}

impl Default for RankBuilder {
    fn default() -> (builder: RankBuilder)
        ensures
            builder@ == spec_default_order(),
    {
        let builder = RankBuilder {
            criteria: [
                RankCriteria::Begin,
                RankCriteria::Span,
                RankCriteria::Length,
                RankCriteria::Index,
            ],
        };
        assert(builder.criteria@ =~= spec_default_order());
        builder
    }
}

} // verus!
