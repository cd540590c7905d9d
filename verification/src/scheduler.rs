//! The order of work in a matching session.
//!
//! A session matches every candidate of the pool against the query of the
//! current generation. The pool is cut into slices, one for each worker. A
//! worker matches its slice in batches and looks at the current generation
//! before each batch; once a newer generation has been issued, it stops.
//! Nothing here starts a thread or waits: the functions say what is to be
//! done next, and their caller does it.

use crate::engine::fuzzy::{spec_match_item, EngineView, FuzzyEngine};
use crate::item::{Candidate, ItemPool};
use crate::options::ConfigError;
use crate::result::{MatchResult, MatchResultView};
use vstd::prelude::*;

verus! {

/// The smaller of two numbers.
pub open spec fn spec_min(a: int, b: int) -> int {
    if a <= b {
        a
    } else {
        b
    }
}

/// The `i`-th of `workers` slices of the indices from `start` up to `end`.
///
/// The slices follow one another. Each holds the whole part of the fair
/// share, and the first few hold one index more, as many as it takes to use
/// up the rest.
pub open spec fn spec_slice(start: int, end: int, workers: int, i: int) -> (int, int) {
    let share = (end - start) / workers;
    let rest = (end - start) % workers;
    (start + i * share + spec_min(i, rest), start + (i + 1) * share + spec_min(i + 1, rest))
}

/// The slices lie side by side from `start` to `end`, and no slice holds more
/// than one index more than another.
pub proof fn lemma_slices_cover(start: int, end: int, workers: int, i: int)
    requires
        start <= end,
        workers > 0,
        0 <= i < workers,
    ensures
        spec_slice(start, end, workers, 0).0 == start,
        spec_slice(start, end, workers, workers - 1).1 == end,
        i + 1 < workers ==> spec_slice(start, end, workers, i).1 == spec_slice(
            start,
            end,
            workers,
            i + 1,
        ).0,
        start <= spec_slice(start, end, workers, i).0 <= spec_slice(start, end, workers, i).1 <= end,
        (end - start) / workers <= spec_slice(start, end, workers, i).1 - spec_slice(
            start,
            end,
            workers,
            i,
        ).0 <= (end - start) / workers + 1,
{
    let n = end - start;
    let share = n / workers;
    let rest = n % workers;
    assert(n == workers * share + rest && 0 <= rest < workers && share >= 0) by (nonlinear_arith)
        requires
            n >= 0,
            workers > 0,
            share == n / workers,
            rest == n % workers,
    ;
    assert((i + 1) * share == i * share + share) by (nonlinear_arith);
    assert(0 * share == 0) by (nonlinear_arith);
    assert((workers - 1 + 1) * share == workers * share) by (nonlinear_arith);
    assert(i * share >= 0 && i * share + share <= workers * share) by (nonlinear_arith)
        requires
            0 <= i < workers,
            share >= 0,
    ;
}

/// Cuts the indices from `start` up to `end` into one slice for each worker.
pub fn partition(start: usize, end: usize, workers: usize) -> (slices: Vec<(usize, usize)>)
    requires
        start <= end,
        workers > 0,
    ensures
        slices@.len() == workers,
        forall|i: int|
            0 <= i < workers ==> (#[trigger] slices@[i]).0 == spec_slice(
                start as int,
                end as int,
                workers as int,
                i,
            ).0 && slices@[i].1 == spec_slice(start as int, end as int, workers as int, i).1,
{
    let share = (end - start) / workers;
    let rest = (end - start) % workers;
    let mut slices: Vec<(usize, usize)> = Vec::new();
    let mut low = start;
    let mut i: usize = 0;
    while i < workers
        invariant
            i <= workers,
            start <= end,
            workers > 0,
            share == (end - start) / (workers as int),
            rest == (end - start) % (workers as int),
            slices@.len() == i,
            i < workers ==> low == spec_slice(start as int, end as int, workers as int, i as int).0,
            forall|k: int|
                0 <= k < i ==> (#[trigger] slices@[k]).0 == spec_slice(
                    start as int,
                    end as int,
                    workers as int,
                    k,
                ).0 && slices@[k].1 == spec_slice(start as int, end as int, workers as int, k).1,
        decreases workers - i,
    {
        proof {
            lemma_slices_cover(start as int, end as int, workers as int, i as int);
            assert((i + 1) * share == i * share + share) by (nonlinear_arith);
        }
        let size = if i < rest { share + 1 } else { share };
        let high = low + size;
        slices.push((low, high));
        low = high;
        i += 1;
    }
    slices
}

/// The results of matching the candidates with the indices from `start` up
/// to `end`, in the order of the indices. A candidate that does not match
/// leaves no result.
pub open spec fn spec_matches(engine: EngineView, items: Seq<Candidate>, start: int, end: int) -> Seq<
    MatchResultView,
>
    decreases end - start,
{
    if start >= end {
        Seq::empty()
    } else {
        let before = spec_matches(engine, items, start, end - 1);
        match spec_match_item(engine, items[end - 1]@, (end - 1) as usize) {
            Some(r) => before.push(r),
            None => before,
        }
    }
}

/// The results of a slice are the results of its candidates: each result
/// belongs to a candidate of the slice that matches, and each candidate of
/// the slice that matches has its result among them.
pub proof fn lemma_matches_are_results(
    engine: EngineView,
    items: Seq<Candidate>,
    start: int,
    end: int,
    r: MatchResultView,
)
    ensures
        spec_matches(engine, items, start, end).contains(r) <==> exists|i: int|
            start <= i < end && #[trigger] spec_match_item(engine, items[i]@, i as usize) == Some(r),
    decreases end - start,
{
    if start < end {
        let before = spec_matches(engine, items, start, end - 1);
        let now = spec_matches(engine, items, start, end);
        lemma_matches_are_results(engine, items, start, end - 1, r);
        let last = spec_match_item(engine, items[end - 1]@, (end - 1) as usize);
        if now.contains(r) {
            let k = choose|k: int| 0 <= k < now.len() && now[k] == r;
            if last is Some && k == now.len() - 1 {
                assert(spec_match_item(engine, items[end - 1]@, (end - 1) as usize) == Some(r));
            } else {
                assert(before[k] == r);
                assert(before.contains(r));
                let i = choose|i: int|
                    start <= i < end - 1 && #[trigger] spec_match_item(
                        engine,
                        items[i]@,
                        i as usize,
                    ) == Some(r);
                assert(start <= i < end);
            }
        }
        if exists|i: int|
            start <= i < end && #[trigger] spec_match_item(engine, items[i]@, i as usize) == Some(
                r,
            ) {
            let i = choose|i: int|
                start <= i < end && #[trigger] spec_match_item(engine, items[i]@, i as usize)
                    == Some(r);
            if i == end - 1 {
                assert(now[now.len() - 1] == r);
            } else {
                assert(before.contains(r));
                let k = choose|k: int| 0 <= k < before.len() && before[k] == r;
                assert(now[k] == r);
            }
        }
    }
}

/// The results as mathematical values.
pub open spec fn spec_found_views(found: Seq<MatchResult>) -> Seq<MatchResultView> {
    Seq::new(found.len(), |i: int| found[i]@)
}

/// Matches the candidates with the indices from `start` up to `end`, as far
/// as the pool holds them, and gives the results in the order of the indices.
pub fn match_slice(engine: &FuzzyEngine, pool: &ItemPool, start: usize, end: usize) -> (found: Vec<
    MatchResult,
>)
    ensures
        spec_found_views(found@) == spec_matches(
            engine@,
            pool@.items,
            start as int,
            spec_min(end as int, pool@.items.len() as int),
        ),
{
    let len = pool.len();
    let stop = if end <= len { end } else { len };
    let mut found: Vec<MatchResult> = Vec::new();
    if start >= stop {
        proof {
            assert(spec_found_views(found@) =~= Seq::<MatchResultView>::empty());
        }
        return found;
    }
    let mut k = start;
    proof {
        assert(spec_found_views(found@) =~= Seq::<MatchResultView>::empty());
    }
    while k < stop
        invariant
            start <= k <= stop <= pool@.items.len(),
            spec_found_views(found@) == spec_matches(engine@, pool@.items, start as int, k as int),
        decreases stop - k,
    {
        let ghost before = found@;
        match pool.get(k) {
            Some(item) => {
                match engine.match_item(item, k) {
                    Some(r) => {
                        found.push(r);
                        proof {
                            assert(spec_found_views(found@) =~= spec_found_views(before).push(r@));
                        }
                    },
                    None => {},
                }
            },
            None => {},
        }
        k += 1;
    }
    found
}

/// What a worker does next.
#[derive(Debug, Clone, Copy, PartialEq, Eq, Structural)]
pub enum WorkerStep {
    /// Match the candidates with the indices from `start` up to `end`.
    Match { start: usize, end: usize },
    /// The slice is done.
    Finished,
    /// A newer generation has been issued: the rest of the slice is left out.
    Abandoned,
}

/// The number of candidates that a worker matches between two looks at the
/// current generation.
pub const CHECK_INTERVAL: usize = 256;

/// The work of one worker on one slice for one generation.
#[derive(Debug, Clone, Copy, PartialEq, Eq, Structural)]
pub struct Worker {
    /// The generation that the worker was started for.
    pub generation: u64,
    /// The index of the next candidate to match.
    pub next: usize,
    /// The index at which the slice ends.
    pub end: usize,
}

/// The step that a worker takes when the current generation is `current`.
pub open spec fn spec_step(w: Worker, current: u64) -> WorkerStep {
    if current > w.generation {
        WorkerStep::Abandoned
    } else if w.next < w.end {
        WorkerStep::Match {
            start: w.next,
            end: spec_min(w.next + CHECK_INTERVAL, w.end as int) as usize,
        }
    } else {
        WorkerStep::Finished
    }
}

/// The worker after that step: past the batch it was told to match, or at
/// the end of its slice where it has abandoned it.
pub open spec fn spec_after_step(w: Worker, current: u64) -> Worker {
    match spec_step(w, current) {
        WorkerStep::Match { start, end } => Worker { next: end, ..w },
        WorkerStep::Finished => w,
        WorkerStep::Abandoned => Worker { next: if w.next < w.end { w.end } else { w.next }, ..w },
    }
}

impl Worker {
    /// A worker for the slice from `start` up to `end` and for `generation`.
    pub fn new(generation: u64, start: usize, end: usize) -> (w: Worker)
        ensures
            w == (Worker { generation, next: start, end }),
    {
        Worker { generation, next: start, end }
    }

    /// Decides what to do next, given the generation that is current now.
    pub fn step(&mut self, current: u64) -> (step: WorkerStep)
        ensures
            step == spec_step(*old(self), current),
            *final(self) == spec_after_step(*old(self), current),
    {
        if current > self.generation {
            if self.next < self.end {
                self.next = self.end;
            }
            WorkerStep::Abandoned
        } else if self.next < self.end {
            let start = self.next;
            let end = if self.end - start > CHECK_INTERVAL {
                start + CHECK_INTERVAL
            } else {
                self.end
            };
            self.next = end;
            WorkerStep::Match { start, end }
        } else {
            WorkerStep::Finished
        }
    }

    /// Takes one step and, where the step is to match a batch, matches it.
    ///
    /// Gives the results of the batch, or nothing where the slice is done or
    /// was abandoned.
    pub fn advance(&mut self, current: u64, engine: &FuzzyEngine, pool: &ItemPool) -> (found: Option<
        Vec<MatchResult>,
    >)
        ensures
            *final(self) == spec_after_step(*old(self), current),
            match found {
                Some(results) => match spec_step(*old(self), current) {
                    WorkerStep::Match { start, end } => spec_found_views(results@) == spec_matches(
                        engine@,
                        pool@.items,
                        start as int,
                        spec_min(end as int, pool@.items.len() as int),
                    ),
                    _ => false,
                },
                None => !(spec_step(*old(self), current) is Match),
            },
    {
        match self.step(current) {
            WorkerStep::Match { start, end } => Some(match_slice(engine, pool, start, end)),
            WorkerStep::Finished => None,
            WorkerStep::Abandoned => None,
        }
    }
}

/// A worker that has abandoned its slice matches nothing from then on,
/// whatever generation is current.
pub proof fn lemma_abandoned_stays_silent(w: Worker, current: u64, later: u64)
    requires
        spec_step(w, current) is Abandoned,
    ensures
        !(spec_step(spec_after_step(w, current), later) is Match),
{
}

/// A step never moves a worker back, nor past the end of its slice, and it
/// leaves the generation of the worker as it is.
pub proof fn lemma_step_moves_forward(w: Worker, current: u64)
    requires
        w.next <= w.end,
    ensures
        w.next <= spec_after_step(w, current).next <= w.end,
        spec_after_step(w, current).end == w.end,
        spec_after_step(w, current).generation == w.generation,
        spec_step(w, current) is Match ==> w.next < spec_after_step(w, current).next,
{
}

/// The slices that are handed to the workers at one time, and the generation
/// that their results are tagged with.
#[derive(Debug)]
pub struct Pass {
    pub generation: u64,
    pub slices: Vec<(usize, usize)>,
}

/// A scheduler as a mathematical value.
pub struct SchedulerView {
    /// The number of workers, which is not 0.
    pub workers: usize,
    /// The generation that was issued last; 0 before the first.
    pub generation: u64,
    /// The number of candidates, counted from the first, that have been
    /// handed out for the current generation.
    pub covered: usize,
    /// The number of slices of the current generation that have been handed
    /// out and have not ended.
    pub running: usize,
}

/// Whether `slices` cut the indices from `start` up to `end` into one slice
/// for each of the workers.
pub open spec fn spec_cuts(slices: Seq<(usize, usize)>, start: int, end: int, workers: int) -> bool {
    &&& slices.len() == workers
    &&& forall|i: int|
        0 <= i < workers ==> (#[trigger] slices[i]).0 == spec_slice(start, end, workers, i).0
            && slices[i].1 == spec_slice(start, end, workers, i).1
}

/// The scheduler after a new query has arrived while the pool held
/// `snapshot` candidates: the next generation, with all of them handed out.
pub open spec fn spec_issue(s: SchedulerView, snapshot: usize) -> SchedulerView {
    SchedulerView {
        workers: s.workers,
        generation: (s.generation + 1) as u64,
        covered: snapshot,
        running: s.workers,
    }
}

/// The scheduler after a worker has reported that its slice for `generation`
/// has ended. A report for another generation than the current one counts
/// for nothing.
pub open spec fn spec_slice_ended(s: SchedulerView, generation: u64) -> SchedulerView {
    if generation == s.generation && s.running > 0 {
        SchedulerView { running: (s.running - 1) as usize, ..s }
    } else {
        s
    }
}

/// Whether candidates that arrived after the last hand-out are handed out
/// now: there are some, and the slices handed out before have all ended or
/// the pool will not grow any more.
pub open spec fn spec_follow_up_due(s: SchedulerView, pool_len: usize, frozen: bool) -> bool {
    &&& pool_len > s.covered
    &&& s.running == 0 || frozen
    &&& s.running + s.workers <= usize::MAX
}

/// The scheduler after those candidates have been handed out.
pub open spec fn spec_follow_up(s: SchedulerView, pool_len: usize) -> SchedulerView {
    SchedulerView { covered: pool_len, running: (s.running + s.workers) as usize, ..s }
}

/// Whether the pass of the current generation is complete for a pool of
/// `pool_len` candidates: every candidate has been handed out, and every
/// slice has ended.
pub open spec fn spec_complete(s: SchedulerView, pool_len: usize) -> bool {
    s.running == 0 && pool_len <= s.covered
}

/// Keeps count of the generations and of the work handed out for the
/// current one.
#[derive(Debug)]
pub struct Scheduler {
    workers: usize,
    generation: u64,
    covered: usize,
    running: usize,
}

impl View for Scheduler {
    type V = SchedulerView;

    closed spec fn view(&self) -> SchedulerView {
        SchedulerView {
            workers: self.workers,
            generation: self.generation,
            covered: self.covered,
            running: self.running,
        }
    }
}

impl Scheduler {
    #[verifier::type_invariant]
    closed spec fn well_formed(&self) -> bool {
        self.workers > 0
    }

    /// A scheduler for the given number of workers, which must not be 0.
    pub fn new(workers: usize) -> (made: Result<Scheduler, ConfigError>)
        ensures
            match made {
                Ok(s) => workers > 0 && s@ == (SchedulerView {
                    workers,
                    generation: 0,
                    covered: 0,
                    running: 0,
                }),
                Err(e) => workers == 0 && e == ConfigError::ZeroWorkers,
            },
    {
        if workers == 0 {
            Err(ConfigError::ZeroWorkers)
        } else {
            Ok(Scheduler::with_workers(workers))
        }
    }

    /// A scheduler for a number of workers that is known not to be 0.
    pub fn with_workers(workers: usize) -> (made: Scheduler)
        requires
            workers > 0,
        ensures
            made@ == (SchedulerView { workers, generation: 0, covered: 0, running: 0 }),
    {
        Scheduler { workers, generation: 0, covered: 0, running: 0 }
    }

    /// The number of workers.
    pub fn workers(&self) -> (workers: usize)
        ensures
            workers == self@.workers,
            workers > 0,
    {
        proof {
            use_type_invariant(self);
        }
        self.workers
    }

    /// The generation that was issued last.
    pub fn generation(&self) -> (generation: u64)
        ensures
            generation == self@.generation,
    {
        self.generation
    }

    /// Issues the next generation for a new query and hands out the
    /// candidates that the pool holds now, one slice to each worker.
    ///
    /// Whatever was handed out for the generation before is superseded.
    /// Gives nothing, and changes nothing, only where the count of
    /// generations has reached the largest number there is.
    pub fn issue(&mut self, snapshot: usize) -> (pass: Option<Pass>)
        ensures
            match pass {
                Some(p) => old(self)@.generation < u64::MAX && final(self)@ == spec_issue(
                    old(self)@,
                    snapshot,
                ) && p.generation == old(self)@.generation + 1 && spec_cuts(
                    p.slices@,
                    0,
                    snapshot as int,
                    old(self)@.workers as int,
                ),
                None => old(self)@.generation == u64::MAX && final(self)@ == old(self)@,
            },
    {
        proof {
            use_type_invariant(&*self);
        }
        if self.generation == u64::MAX {
            return None;
        }
        let generation = self.generation + 1;
        let slices = partition(0, snapshot, self.workers);
        self.generation = generation;
        self.covered = snapshot;
        self.running = self.workers;
        Some(Pass { generation, slices })
    }

    /// Takes the report of a worker that its slice for `generation` has
    /// ended, whether it was finished or abandoned.
    pub fn slice_ended(&mut self, generation: u64)
        ensures
            final(self)@ == spec_slice_ended(old(self)@, generation),
    {
        proof {
            use_type_invariant(&*self);
        }
        if generation == self.generation && self.running > 0 {
            self.running = self.running - 1;
        }
    }

    /// Hands out, for the current generation, the candidates that arrived
    /// after the last hand-out, where that is due.
    pub fn follow_up(&mut self, pool_len: usize, frozen: bool) -> (pass: Option<Pass>)
        ensures
            match pass {
                Some(p) => spec_follow_up_due(old(self)@, pool_len, frozen) && final(self)@
                    == spec_follow_up(old(self)@, pool_len) && p.generation == old(self)@.generation
                    && spec_cuts(
                    p.slices@,
                    old(self)@.covered as int,
                    pool_len as int,
                    old(self)@.workers as int,
                ),
                None => !spec_follow_up_due(old(self)@, pool_len, frozen) && final(self)@ == old(
                    self,
                )@,
            },
    {
        proof {
            use_type_invariant(&*self);
        }
        if pool_len <= self.covered || !(self.running == 0 || frozen) || self.running > usize::MAX
            - self.workers {
            return None;
        }
        let slices = partition(self.covered, pool_len, self.workers);
        self.covered = pool_len;
        self.running = self.running + self.workers;
        Some(Pass { generation: self.generation, slices })
    }

    /// Whether the pass of the current generation is complete for a pool of
    /// `pool_len` candidates.
    pub fn is_complete(&self, pool_len: usize) -> (complete: bool)
        ensures
            complete == spec_complete(self@, pool_len),
    {
        self.running == 0 && pool_len <= self.covered
    }
}

/// Each issue gives a generation that no issue gave before: the count of
/// generations grows by one.
pub proof fn lemma_issue_is_newer(s: SchedulerView, snapshot: usize)
    requires
        s.generation < u64::MAX,
    ensures
        spec_issue(s, snapshot).generation > s.generation,
{
}

/// Handing out what arrived later leaves the generation as it is, and the
/// hand-out starts where the last one ended and reaches to the end of the
/// pool, so that no candidate is handed out twice for one generation and
/// none is left out.
pub proof fn lemma_follow_up_continues(s: SchedulerView, pool_len: usize, frozen: bool, i: int)
    requires
        s.workers > 0,
        spec_follow_up_due(s, pool_len, frozen),
        0 <= i < s.workers,
    ensures
        spec_follow_up(s, pool_len).generation == s.generation,
        spec_follow_up(s, pool_len).covered == pool_len,
        spec_slice(s.covered as int, pool_len as int, s.workers as int, 0).0 == s.covered,
        spec_slice(s.covered as int, pool_len as int, s.workers as int, s.workers - 1).1
            == pool_len,
        s.covered <= spec_slice(s.covered as int, pool_len as int, s.workers as int, i).0
            <= spec_slice(s.covered as int, pool_len as int, s.workers as int, i).1 <= pool_len,
{
    lemma_slices_cover(s.covered as int, pool_len as int, s.workers as int, i);
}

} // verus!
