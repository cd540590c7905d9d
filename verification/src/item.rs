//! Candidates and the pool that holds them.

use crate::field::{matching_ranges, spec_fields, spec_selected, Delimiter, FieldRange};
use crate::text::spec_on_boundary;
use vstd::prelude::*;
use vstd::string::StringSliceAdditionalSpecFns;

verus! {

/// A byte offset, held back to the length of a text of `len` bytes.
pub open spec fn spec_clip(offset: usize, len: nat) -> int {
    if offset <= len {
        offset as int
    } else {
        len as int
    }
}

/// Whether a byte range, held back to the text, runs forward from one
/// character boundary of `text` to another.
pub open spec fn spec_range_fits(text: Seq<char>, range: (usize, usize)) -> bool {
    let len = vstd::utf8::encode_utf8(text).len();
    &&& spec_clip(range.0, len) <= spec_clip(range.1, len)
    &&& spec_on_boundary(text, spec_clip(range.0, len))
    &&& spec_on_boundary(text, spec_clip(range.1, len))
}

/// Whether each of the byte ranges fits `text`.
pub open spec fn spec_ranges_fit(text: Seq<char>, ranges: Seq<(usize, usize)>) -> bool {
    forall|k: int| 0 <= k < ranges.len() ==> spec_range_fits(text, #[trigger] ranges[k])
}

/// A candidate as a mathematical value.
pub struct CandidateView {
    /// The text that is shown and matched.
    pub text: Seq<char>,
    /// The byte ranges of `text` to which matching is held, in the order in
    /// which they are tried; without them the whole text is matched.
    pub ranges: Option<Seq<(usize, usize)>>,
    /// What is printed when the candidate is chosen.
    pub output: Seq<char>,
}

/// One line of input that a query can match. It never changes once made.
#[derive(Debug)]
pub struct Candidate {
    text: String,
    ranges: Option<Vec<(usize, usize)>>,
    output: String,
}

impl View for Candidate {
    type V = CandidateView;

    closed spec fn view(&self) -> CandidateView {
        CandidateView {
            text: self.text@,
            ranges: match self.ranges {
                Some(r) => Some(r@),
                None => None,
            },
            output: self.output@,
        }
    }
}

/// Holds `offset` back to `len`.
pub fn clip(offset: usize, len: usize) -> (held: usize)
    ensures
        held == spec_clip(offset, len as nat),
{
    if offset <= len {
        offset
    } else {
        len
    }
}

impl Candidate {
    #[verifier::type_invariant]
    closed spec fn well_formed(&self) -> bool {
        match self.ranges {
            Some(r) => spec_ranges_fit(self.text@, r@),
            None => true,
        }
    }

    /// Whether the ranges of the candidate, if it has any, fit its text.
    pub open spec fn wf(&self) -> bool {
        match self@.ranges {
            Some(r) => spec_ranges_fit(self@.text, r),
            None => true,
        }
    }

    /// A candidate that is matched on its whole text and printed as it is shown.
    pub fn new(text: String) -> (made: Candidate)
        ensures
            made@ == (CandidateView { text: text@, ranges: None, output: text@ }),
            made.wf(),
    {
        let output = text.clone();
        Candidate { text, ranges: None, output }
    }

    /// A candidate that is matched only inside the given byte ranges of its text.
    ///
    /// Gives nothing exactly where one of the ranges does not fit the text.
    pub fn restricted(text: String, ranges: Vec<(usize, usize)>) -> (made: Option<Candidate>)
        ensures
            match made {
                Some(c) => c@ == (CandidateView { text: text@, ranges: Some(ranges@), output: text@ })
                    && c.wf(),
                None => !spec_ranges_fit(text@, ranges@),
            },
    {
        let view = text.as_str();
        let len = view.as_bytes().len();
        let mut k: usize = 0;
        while k < ranges.len()
            invariant
                k <= ranges.len(),
                len == vstd::utf8::encode_utf8(text@).len(),
                view@ == text@,
                forall|j: int| 0 <= j < k ==> spec_range_fits(text@, #[trigger] ranges@[j]),
            decreases ranges.len() - k,
        {
            let (start, end) = ranges[k];
            let start = clip(start, len);
            let end = clip(end, len);
            if start > end || !view.is_char_boundary(start) || !view.is_char_boundary(end) {
                assert(!spec_range_fits(text@, ranges@[k as int]));
                return None;
            }
            k += 1;
        }
        let output = text.clone();
        Some(Candidate { text, ranges: Some(ranges), output })
    }

    /// A candidate that is matched only inside the fields that a restriction
    /// selects. Without a restriction it is matched on its whole text.
    pub fn with_fields(text: String, d: Delimiter, restriction: &Vec<FieldRange>) -> (made: Candidate)
        ensures
            made@ == (CandidateView {
                text: text@,
                ranges: if restriction@.len() == 0 {
                    None
                } else {
                    Some(
                        spec_selected(
                            spec_fields(
                                vstd::utf8::encode_utf8(text@),
                                d,
                                vstd::utf8::encode_utf8(text@).len() as int,
                            ),
                            restriction@,
                        ),
                    )
                },
                output: text@,
            }),
            made.wf(),
    {
        if restriction.len() == 0 {
            return Candidate::new(text);
        }
        let ranges = matching_ranges(text.as_str(), d, restriction);
        let output = text.clone();
        proof {
            assert forall|k: int| 0 <= k < ranges@.len() implies spec_range_fits(
                text@,
                #[trigger] ranges@[k],
            ) by {
                assert(ranges@[k].0 < ranges@[k].1);
            }
        }
        Candidate { text, ranges: Some(ranges), output }
    }

    /// The same candidate, printed as `output` when it is chosen.
    pub fn with_output(self, output: String) -> (made: Candidate)
        ensures
            made@ == (CandidateView { output: output@, ..self@ }),
            made.wf(),
    {
        proof {
            use_type_invariant(&self);
        }
        Candidate { text: self.text, ranges: self.ranges, output }
    }

    /// The text that is shown and matched.
    pub fn text(&self) -> (text: &str)
        ensures
            text@ == self@.text,
    {
        self.text.as_str()
    }

    /// What is printed when the candidate is chosen.
    pub fn output(&self) -> (output: &str)
        ensures
            output@ == self@.output,
    {
        self.output.as_str()
    }

    /// The byte ranges to which matching is held, if it is held to any.
    pub fn matching_ranges(&self) -> (ranges: Option<&Vec<(usize, usize)>>)
        ensures
            match ranges {
                Some(r) => self@.ranges == Some(r@),
                None => self@.ranges is None,
            },
            self.wf(),
    {
        proof {
            use_type_invariant(self);
        }
        match &self.ranges {
            Some(r) => Some(r),
            None => None,
        }
    }
}

/// A pool as a mathematical value.
pub struct PoolView {
    /// The candidates in the order in which they were added.
    pub items: Seq<Candidate>,
    /// Whether the input has ended, so that nothing more is added.
    pub frozen: bool,
}

/// The candidates of a session, in the order in which they arrived.
///
/// A candidate keeps the index it was given for as long as the pool lives:
/// nothing is ever removed or moved.
#[derive(Debug)]
pub struct ItemPool {
    items: Vec<Candidate>,
    frozen: bool,
}

impl View for ItemPool {
    type V = PoolView;

    closed spec fn view(&self) -> PoolView {
        PoolView { items: self.items@, frozen: self.frozen }
    }
}

impl ItemPool {
    /// An empty pool that still grows.
    pub fn new() -> (pool: ItemPool)
        ensures
            pool@.items.len() == 0,
            !pool@.frozen,
    {
        ItemPool { items: Vec::new(), frozen: false }
    }

    /// Adds a candidate behind all others and gives its index.
    ///
    /// A frozen pool takes nothing and stays as it is.
    pub fn append(&mut self, candidate: Candidate) -> (index: Option<usize>)
        ensures
            final(self)@.frozen == old(self)@.frozen,
            match index {
                Some(i) => !old(self)@.frozen && i == old(self)@.items.len() && final(self)@.items
                    == old(self)@.items.push(candidate),
                None => old(self)@.frozen && final(self)@ == old(self)@,
            },
    {
        if self.frozen {
            return None;
        }
        let index = self.items.len();
        self.items.push(candidate);
        Some(index)
    }

    /// The number of candidates added so far.
    pub fn len(&self) -> (count: usize)
        ensures
            count == self@.items.len(),
    {
        self.items.len()
    }

    /// The candidate with the given index, for every index below `len`.
    pub fn get(&self, index: usize) -> (found: Option<&Candidate>)
        ensures
            match found {
                Some(c) => index < self@.items.len() && *c == self@.items[index as int],
                None => index >= self@.items.len(),
            },
    {
        if index < self.items.len() {
            Some(&self.items[index])
        } else {
            None
        }
    }

    /// Marks the end of the input: from now on `append` adds nothing.
    pub fn freeze(&mut self)
        ensures
            final(self)@.frozen,
            final(self)@.items == old(self)@.items,
    {
        self.frozen = true;
    }

    /// Whether the input has ended.
    pub fn is_frozen(&self) -> (frozen: bool)
        ensures
            frozen == self@.frozen,
    {
        self.frozen
    }
}

} // verus!
