//! Setting up a session: every setting is checked before any matching begins.

use crate::engine::fuzzy::{EngineView, FuzzyAlgorithm, FuzzyEngine};
use crate::field::{parse_field_range, spec_field_range, Delimiter, FieldRange};
use crate::options::{CaseMatching, ConfigError};
use crate::rank::{spec_is_order, RankBuilder, RankCriteria};
use crate::scheduler::{Scheduler, SchedulerView};
use crate::text::str_eq;
use std::sync::Arc;
use vstd::prelude::*;

verus! {

/// The algorithm that a name stands for, where it is the name of one.
pub open spec fn spec_algorithm_named(name: Seq<char>) -> Option<FuzzyAlgorithm> {
    if name == "skim_v1"@ {
        Some(FuzzyAlgorithm::SkimV1)
    } else if name == "skim_v2"@ {
        Some(FuzzyAlgorithm::SkimV2)
    } else if name == "clangd"@ {
        Some(FuzzyAlgorithm::Clangd)
    } else {
        None
    }
}

/// The case mode that a name stands for, where it is the name of one.
pub open spec fn spec_case_named(name: Seq<char>) -> Option<CaseMatching> {
    if name == "respect"@ {
        Some(CaseMatching::Respect)
    } else if name == "ignore"@ {
        Some(CaseMatching::Ignore)
    } else if name == "smart"@ {
        Some(CaseMatching::Smart)
    } else {
        None
    }
}

/// The tie-break criterion that a name stands for, where it is the name of one.
pub open spec fn spec_criterion_named(name: Seq<char>) -> Option<RankCriteria> {
    if name == "begin"@ {
        Some(RankCriteria::Begin)
    } else if name == "span"@ {
        Some(RankCriteria::Span)
    } else if name == "length"@ {
        Some(RankCriteria::Length)
    } else if name == "index"@ {
        Some(RankCriteria::Index)
    } else {
        None
    }
}

/// Reads the name of an algorithm as it is written on the command line.
pub fn algorithm_named(name: &str) -> (algorithm: Result<FuzzyAlgorithm, ConfigError>)
    ensures
        match algorithm {
            Ok(a) => spec_algorithm_named(name@) == Some(a),
            Err(e) => spec_algorithm_named(name@) is None && e == ConfigError::InvalidAlgorithm,
        },
{
    if str_eq(name, "skim_v1") {
        Ok(FuzzyAlgorithm::SkimV1)
    } else if str_eq(name, "skim_v2") {
        Ok(FuzzyAlgorithm::SkimV2)
    } else if str_eq(name, "clangd") {
        Ok(FuzzyAlgorithm::Clangd)
    } else {
        Err(ConfigError::InvalidAlgorithm)
    }
}

/// The name under which an algorithm is written on the command line.
pub fn algorithm_name(algorithm: FuzzyAlgorithm) -> (name: &'static str)
    ensures
        spec_algorithm_named(name@) == Some(algorithm),
{
    proof {
        reveal_strlit("skim_v1");
        reveal_strlit("skim_v2");
        reveal_strlit("clangd");
    }
    match algorithm {
        FuzzyAlgorithm::SkimV1 => {
            "skim_v1"
        },
        FuzzyAlgorithm::SkimV2 => {
            assert("skim_v2"@[6] != "skim_v1"@[6]);
            "skim_v2"
        },
        FuzzyAlgorithm::Clangd => {
            assert("clangd"@.len() != "skim_v1"@.len());
            "clangd"
        },
    }
}

/// Reads the name of a case mode.
pub fn case_named(name: &str) -> (case: Result<CaseMatching, ConfigError>)
    ensures
        match case {
            Ok(c) => spec_case_named(name@) == Some(c),
            Err(e) => spec_case_named(name@) is None && e == ConfigError::InvalidCase,
        },
{
    if str_eq(name, "respect") {
        Ok(CaseMatching::Respect)
    } else if str_eq(name, "ignore") {
        Ok(CaseMatching::Ignore)
    } else if str_eq(name, "smart") {
        Ok(CaseMatching::Smart)
    } else {
        Err(ConfigError::InvalidCase)
    }
}

/// Reads the name of a tie-break criterion.
pub fn criterion_named(name: &str) -> (criterion: Option<RankCriteria>)
    ensures
        criterion == spec_criterion_named(name@),
{
    if str_eq(name, "begin") {
        Some(RankCriteria::Begin)
    } else if str_eq(name, "span") {
        Some(RankCriteria::Span)
    } else if str_eq(name, "length") {
        Some(RankCriteria::Length)
    } else if str_eq(name, "index") {
        Some(RankCriteria::Index)
    } else {
        None
    }
}

/// The texts as mathematical values.
pub open spec fn spec_texts(names: Seq<String>) -> Seq<Seq<char>> {
    Seq::new(names.len(), |i: int| names[i]@)
}

/// The tie-break order that a list of names stands for: every name is the
/// name of a criterion, and each criterion is named once.
pub open spec fn spec_tiebreak(names: Seq<Seq<char>>) -> Option<Seq<RankCriteria>> {
    let order = Seq::new(names.len(), |i: int| spec_criterion_named(names[i]));
    if (forall|i: int| 0 <= i < names.len() ==> (#[trigger] order[i]) is Some) && spec_is_order(
        Seq::new(names.len(), |i: int| order[i]->0),
    ) {
        Some(Seq::new(names.len(), |i: int| order[i]->0))
    } else {
        None
    }
}

/// Reads a tie-break order.
pub fn parse_tiebreak(names: &Vec<String>) -> (made: Result<RankBuilder, ConfigError>)
    ensures
        match made {
            Ok(builder) => spec_tiebreak(spec_texts(names@)) == Some(builder@),
            Err(e) => spec_tiebreak(spec_texts(names@)) is None && e == ConfigError::InvalidTieBreak,
        },
{
    let ghost texts = spec_texts(names@);
    let ghost wanted = Seq::new(texts.len(), |i: int| spec_criterion_named(texts[i]));
    let mut order: Vec<RankCriteria> = Vec::new();
    let mut i: usize = 0;
    while i < names.len()
        invariant
            i <= names.len(),
            texts == spec_texts(names@),
            wanted == Seq::new(texts.len(), |i: int| spec_criterion_named(texts[i])),
            order@.len() == i,
            forall|k: int| 0 <= k < i ==> (#[trigger] wanted[k]) == Some(order@[k]),
        decreases names.len() - i,
    {
        match criterion_named(names[i].as_str()) {
            Some(c) => {
                order.push(c);
            },
            None => {
                assert(wanted[i as int] is None);
                return Err(ConfigError::InvalidTieBreak);
            },
        }
        i += 1;
    }
    proof {
        assert(order@ =~= Seq::new(texts.len(), |i: int| wanted[i]->0));
    }
    RankBuilder::new(&order)
}

/// The restriction that a list of texts stands for: every text is an entry.
pub open spec fn spec_restriction(entries: Seq<Seq<char>>) -> Option<Seq<FieldRange>> {
    if forall|i: int| 0 <= i < entries.len() ==> spec_field_range(#[trigger] entries[i]) is Some {
        Some(Seq::new(entries.len(), |i: int| spec_field_range(entries[i])->0))
    } else {
        None
    }
}

/// Reads a field restriction, entry by entry.
pub fn parse_restriction(entries: &Vec<String>) -> (made: Result<Vec<FieldRange>, ConfigError>)
    ensures
        match made {
            Ok(r) => spec_restriction(spec_texts(entries@)) == Some(r@),
            Err(e) => spec_restriction(spec_texts(entries@)) is None && e
                == ConfigError::InvalidFieldSpec,
        },
{
    let ghost texts = spec_texts(entries@);
    let mut ranges: Vec<FieldRange> = Vec::new();
    let mut i: usize = 0;
    while i < entries.len()
        invariant
            i <= entries.len(),
            texts == spec_texts(entries@),
            ranges@.len() == i,
            forall|k: int| 0 <= k < i ==> spec_field_range(#[trigger] texts[k]) == Some(ranges@[k]),
        decreases entries.len() - i,
    {
        match parse_field_range(entries[i].as_str()) {
            Ok(r) => {
                ranges.push(r);
            },
            Err(e) => {
                assert(spec_field_range(texts[i as int]) is None);
                return Err(e);
            },
        }
        i += 1;
    }
    proof {
        assert(ranges@ =~= Seq::new(texts.len(), |i: int| spec_field_range(texts[i])->0));
    }
    Ok(ranges)
}

/// The delimiter that a setting stands for: whitespace where none is given,
/// else the given character, which must be ASCII.
pub open spec fn spec_delimiter(given: Option<char>) -> Option<Delimiter> {
    match given {
        None => Some(Delimiter::Whitespace),
        Some(c) => if (c as u32) < 128 {
            Some(Delimiter::Ascii(c as u8))
        } else {
            None
        },
    }
}

/// Reads the delimiter setting.
pub fn parse_delimiter(given: Option<char>) -> (made: Result<Delimiter, ConfigError>)
    ensures
        match made {
            Ok(d) => spec_delimiter(given) == Some(d),
            Err(e) => spec_delimiter(given) is None && e == ConfigError::InvalidDelimiter,
        },
{
    match given {
        None => Ok(Delimiter::Whitespace),
        Some(c) => if (c as u32) < 128 {
            Ok(Delimiter::Ascii(c as u8))
        } else {
            Err(ConfigError::InvalidDelimiter)
        },
    }
}

/// The settings of a session as mathematical values.
pub struct ConfigView {
    pub algorithm: FuzzyAlgorithm,
    pub case: CaseMatching,
    pub restriction: Seq<FieldRange>,
    pub delimiter: Delimiter,
    pub criteria: Seq<RankCriteria>,
    pub workers: usize,
    pub budget: usize,
}

/// What comes of the settings as they were given: the checked settings, or
/// the first thing that is wrong with them, looked for in the order
/// algorithm, case mode, field restriction, delimiter, tie-break order,
/// number of workers, element budget.
pub open spec fn spec_configure(
    algorithm: Seq<char>,
    case: Seq<char>,
    restriction: Seq<Seq<char>>,
    delimiter: Option<char>,
    tiebreak: Seq<Seq<char>>,
    workers: usize,
    budget: usize,
) -> Result<ConfigView, ConfigError> {
    if spec_algorithm_named(algorithm) is None {
        Err(ConfigError::InvalidAlgorithm)
    } else if spec_case_named(case) is None {
        Err(ConfigError::InvalidCase)
    } else if spec_restriction(restriction) is None {
        Err(ConfigError::InvalidFieldSpec)
    } else if spec_delimiter(delimiter) is None {
        Err(ConfigError::InvalidDelimiter)
    } else if spec_tiebreak(tiebreak) is None {
        Err(ConfigError::InvalidTieBreak)
    } else if workers == 0 {
        Err(ConfigError::ZeroWorkers)
    } else if budget == 0 {
        Err(ConfigError::ZeroBudget)
    } else {
        Ok(
            ConfigView {
                algorithm: spec_algorithm_named(algorithm)->0,
                case: spec_case_named(case)->0,
                restriction: spec_restriction(restriction)->0,
                delimiter: spec_delimiter(delimiter)->0,
                criteria: spec_tiebreak(tiebreak)->0,
                workers,
                budget,
            },
        )
    }
}

/// The checked settings of a session.
pub struct SessionConfig {
    algorithm: FuzzyAlgorithm,
    case: CaseMatching,
    restriction: Vec<FieldRange>,
    delimiter: Delimiter,
    rank_builder: Arc<RankBuilder>,
    workers: usize,
    budget: usize,
}

impl View for SessionConfig {
    type V = ConfigView;

    closed spec fn view(&self) -> ConfigView {
        ConfigView {
            algorithm: self.algorithm,
            case: self.case,
            restriction: self.restriction@,
            delimiter: self.delimiter,
            criteria: (*self.rank_builder)@,
            workers: self.workers,
            budget: self.budget,
        }
    }
}

impl SessionConfig {
    #[verifier::type_invariant]
    closed spec fn well_formed(&self) -> bool {
        self.workers > 0 && self.budget > 0
    }

    /// Checks the settings of a session.
    pub fn new(
        algorithm: &str,
        case: &str,
        restriction: &Vec<String>,
        delimiter: Option<char>,
        tiebreak: &Vec<String>,
        workers: usize,
        budget: usize,
    ) -> (made: Result<SessionConfig, ConfigError>)
        ensures
            match made {
                Ok(config) => spec_configure(
                    algorithm@,
                    case@,
                    spec_texts(restriction@),
                    delimiter,
                    spec_texts(tiebreak@),
                    workers,
                    budget,
                ) == Ok::<ConfigView, ConfigError>(config@),
                Err(e) => spec_configure(
                    algorithm@,
                    case@,
                    spec_texts(restriction@),
                    delimiter,
                    spec_texts(tiebreak@),
                    workers,
                    budget,
                ) == Err::<ConfigView, ConfigError>(e),
            },
    {
        let algorithm = match algorithm_named(algorithm) {
            Ok(a) => a,
            Err(e) => { return Err(e); },
        };
        let case = match case_named(case) {
            Ok(c) => c,
            Err(e) => { return Err(e); },
        };
        let restriction = match parse_restriction(restriction) {
            Ok(r) => r,
            Err(e) => { return Err(e); },
        };
        let delimiter = match parse_delimiter(delimiter) {
            Ok(d) => d,
            Err(e) => { return Err(e); },
        };
        let rank_builder = match parse_tiebreak(tiebreak) {
            Ok(b) => b,
            Err(e) => { return Err(e); },
        };
        if workers == 0 {
            return Err(ConfigError::ZeroWorkers);
        }
        if budget == 0 {
            return Err(ConfigError::ZeroBudget);
        }
        Ok(
            SessionConfig {
                algorithm,
                case,
                restriction,
                delimiter,
                rank_builder: Arc::new(rank_builder),
                workers,
                budget,
            },
        )
    }

    /// The engine of these settings for one query.
    pub fn engine(&self, query: &str) -> (engine: FuzzyEngine)
        ensures
            engine@ == (EngineView {
                query: query@,
                case: self@.case,
                algorithm: self@.algorithm,
                budget: self@.budget,
                criteria: self@.criteria,
            }),
    {
        proof {
            use_type_invariant(self);
        }
        FuzzyEngine::builder().query(query).case(self.case).algorithm(self.algorithm).rank_builder(
            self.rank_builder.clone(),
        ).element_budget(self.budget).build()
    }

    /// A scheduler for the workers of these settings.
    pub fn scheduler(&self) -> (scheduler: Scheduler)
        ensures
            scheduler@ == (SchedulerView {
                workers: self@.workers,
                generation: 0,
                covered: 0,
                running: 0,
            }),
    {
        proof {
            use_type_invariant(self);
        }
        Scheduler::with_workers(self.workers)
    }

    /// The candidate that a line of input makes under these settings.
    pub fn candidate(&self, text: String) -> (made: crate::item::Candidate)
        ensures
            made@ == (crate::item::CandidateView {
                text: text@,
                ranges: if self@.restriction.len() == 0 {
                    None
                } else {
                    Some(
                        crate::field::spec_selected(
                            crate::field::spec_fields(
                                vstd::utf8::encode_utf8(text@),
                                self@.delimiter,
                                vstd::utf8::encode_utf8(text@).len() as int,
                            ),
                            self@.restriction,
                        ),
                    )
                },
                output: text@,
            }),
    {
        crate::item::Candidate::with_fields(text, self.delimiter, &self.restriction)
    }
}

} // verus!
