//! The matching and ranking engine of an interactive fuzzy selector.
//!
//! Candidates arrive in a pool. For each query the engine decides which of
//! them match, gives every match a rank and the positions of the matched
//! characters, and keeps the matches in the order of their ranks. A query
//! that supersedes another starts a new generation, and what is left of the
//! old one is dropped.
//!
//! Everything here is verified, but for the scoring algorithms themselves
//! and a random name, which come from other crates and stand behind the few
//! functions of `engine::matcher` and `tmux` that say so.

pub mod aggregator;
pub mod config;
pub mod engine;
pub mod field;
pub mod item;
pub mod options;
pub mod rank;
pub mod result;
pub mod scheduler;
pub mod session;
pub mod text;
pub mod tmux;

pub use engine::fuzzy::{FuzzyAlgorithm, FuzzyEngine, FuzzyEngineBuilder};
pub use item::{Candidate, ItemPool};
pub use options::{CaseMatching, ConfigError};
pub use rank::{Rank, RankBuilder, RankCriteria};
pub use result::MatchResult;
