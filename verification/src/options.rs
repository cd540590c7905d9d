//! Settings of a matching session and the ways in which they can be wrong.

use vstd::prelude::*;

verus! {

/// How the case of letters counts when a query is matched.
#[derive(Debug, Clone, Copy, PartialEq, Eq, Structural)]
pub enum CaseMatching {
    /// Letters match only in the same case.
    Respect,
    /// Letters match in either case.
    Ignore,
    /// As `Ignore`, unless the query itself holds an upper-case letter.
    Smart,
}

impl Default for CaseMatching {
    fn default() -> (case: CaseMatching)
        ensures
            case == CaseMatching::Smart,
    {
        CaseMatching::Smart
    }
}

/// A setting that a session cannot start with.
#[derive(Debug, Clone, Copy, PartialEq, Eq, Structural)]
pub enum ConfigError {
    /// The name stands for no scoring algorithm.
    InvalidAlgorithm,
    /// The name stands for no case mode.
    InvalidCase,
    /// The text is no field index and no range of field indices.
    InvalidFieldSpec,
    /// The delimiter is no ASCII character.
    InvalidDelimiter,
    /// The tie-break order does not name each criterion once.
    InvalidTieBreak,
    /// No worker would run.
    ZeroWorkers,
    /// No match attempt would be given any element.
    ZeroBudget,
}

} // verus!
