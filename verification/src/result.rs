//! What a successful match of one candidate yields.

use crate::rank::{Rank, RankView};
use vstd::prelude::*;

verus! {

/// A match result as a mathematical value.
pub struct MatchResultView {
    /// The insertion index of the candidate.
    pub index: usize,
    /// Where the result stands among the others.
    pub rank: RankView,
    /// The matched positions, counted in characters of the candidate's text.
    pub matched: Seq<usize>,
}

/// The match of one candidate against the query of one generation.
#[derive(Debug)]
pub struct MatchResult {
    pub index: usize,
    pub rank: Rank,
    pub matched: Vec<usize>,
}

impl View for MatchResult {
    type V = MatchResultView;

    open spec fn view(&self) -> MatchResultView {
        MatchResultView { index: self.index, rank: self.rank@, matched: self.matched@ }
    }
}

/// A result that may be missing, as a mathematical value.
pub open spec fn spec_result(found: Option<MatchResult>) -> Option<MatchResultView> {
    match found {
        Some(r) => Some(r@),
        None => None,
    }
}

} // verus!
