//! The ranked view of the results of the current generation.
//!
//! Results arrive one by one, in no particular order. The view keeps them in
//! the order of their ranks, shows each candidate once, and holds results of
//! one generation only.

use crate::rank::{lemma_precedes_irreflexive, lemma_precedes_transitive, spec_precedes, RankView};
use crate::result::{MatchResult, MatchResultView};
use vstd::prelude::*;

verus! {

/// An aggregator as a mathematical value.
pub struct AggregatorView {
    /// The generation whose results are shown.
    pub generation: u64,
    /// The results, best first.
    pub entries: Seq<MatchResultView>,
}

/// The results as mathematical values.
pub open spec fn spec_views(entries: Seq<MatchResult>) -> Seq<MatchResultView> {
    Seq::new(entries.len(), |i: int| entries[i]@)
}

/// Whether no result stands behind one that it should be shown before.
pub open spec fn spec_ranked(entries: Seq<MatchResultView>) -> bool {
    forall|i: int, j: int|
        0 <= i < j < entries.len() ==> !spec_precedes(
            (#[trigger] entries[j]).rank,
            (#[trigger] entries[i]).rank,
        )
}

/// Whether each result is shown before all that stand behind it.
pub open spec fn spec_strictly_ranked(entries: Seq<MatchResultView>) -> bool {
    forall|i: int, j: int|
        0 <= i < j < entries.len() ==> spec_precedes(
            (#[trigger] entries[i]).rank,
            (#[trigger] entries[j]).rank,
        )
}

/// Whether a result of the candidate with insertion index `index` is among
/// the entries.
pub open spec fn spec_holds(entries: Seq<MatchResultView>, index: usize) -> bool {
    exists|i: int| 0 <= i < entries.len() && (#[trigger] entries[i]).index == index
}

/// Whether no candidate has two results among the entries.
pub open spec fn spec_distinct(entries: Seq<MatchResultView>) -> bool {
    forall|i: int, j: int|
        0 <= i < j < entries.len() ==> (#[trigger] entries[i]).index != (#[trigger] entries[j]).index
}

/// The place at which a result with rank `rank` is put: behind every entry
/// that it is not shown before, up to the first that it is shown before.
pub open spec fn spec_place(entries: Seq<MatchResultView>, rank: RankView) -> int
    decreases entries.len(),
{
    if entries.len() == 0 {
        0
    } else if spec_precedes(rank, entries[0].rank) {
        0
    } else {
        1 + spec_place(entries.drop_first(), rank)
    }
}

/// `spec_place` is the one place before which `rank` precedes no entry and at
/// which, if an entry stands there, `rank` precedes it.
pub proof fn lemma_place(entries: Seq<MatchResultView>, rank: RankView, p: int)
    requires
        0 <= p <= entries.len(),
        forall|i: int| 0 <= i < p ==> !spec_precedes(rank, (#[trigger] entries[i]).rank),
        p < entries.len() ==> spec_precedes(rank, entries[p].rank),
    ensures
        spec_place(entries, rank) == p,
    decreases entries.len(),
{
    if entries.len() == 0 {
    } else if p == 0 {
    } else {
        let rest = entries.drop_first();
        assert(!spec_precedes(rank, entries[0].rank));
        assert forall|i: int| 0 <= i < p - 1 implies !spec_precedes(
            rank,
            (#[trigger] rest[i]).rank,
        ) by {
            assert(rest[i] == entries[i + 1]);
        }
        lemma_place(rest, rank, p - 1);
    }
}

/// What the view is after generation `generation` has been issued: empty and
/// of that generation where it is newer than the one shown, else unchanged.
pub open spec fn spec_start(a: AggregatorView, generation: u64) -> AggregatorView {
    if generation > a.generation {
        AggregatorView { generation, entries: Seq::empty() }
    } else {
        a
    }
}

/// What the view is after a result tagged with `generation` has arrived.
///
/// A result of an older generation than the one shown is dropped. A result
/// of a newer generation turns the view to that generation first, which
/// drops all that was shown. A second result of a candidate is dropped. Any
/// other result is put in its place.
pub open spec fn spec_accept(a: AggregatorView, generation: u64, r: MatchResultView) -> AggregatorView {
    if generation < a.generation {
        a
    } else {
        let base = spec_start(a, generation);
        if spec_holds(base.entries, r.index) {
            base
        } else {
            AggregatorView {
                generation: base.generation,
                entries: base.entries.insert(spec_place(base.entries, r.rank), r),
            }
        }
    }
}

/// A result put in at the place where `r` precedes no earlier entry and
/// precedes the entry at that place leaves a ranked view ranked.
pub proof fn lemma_insert_keeps_ranked(entries: Seq<MatchResultView>, r: MatchResultView, p: int)
    requires
        spec_ranked(entries),
        0 <= p <= entries.len(),
        forall|i: int| 0 <= i < p ==> !spec_precedes(r.rank, (#[trigger] entries[i]).rank),
        p < entries.len() ==> spec_precedes(r.rank, entries[p].rank),
    ensures
        spec_ranked(entries.insert(p, r)),
{
    let after = entries.insert(p, r);
    assert forall|i: int, j: int| 0 <= i < j < after.len() implies !spec_precedes(
        (#[trigger] after[j]).rank,
        (#[trigger] after[i]).rank,
    ) by {
        if j == p {
            assert(after[i] == entries[i]);
        } else if i == p {
            let m = j - 1;
            assert(after[j] == entries[m]);
            if spec_precedes(entries[m].rank, r.rank) {
                lemma_precedes_transitive(entries[m].rank, r.rank, entries[p].rank);
                if m == p {
                    lemma_precedes_irreflexive(entries[p].rank);
                }
            }
        } else {
            let a = if i < p { i } else { i - 1 };
            let b = if j < p { j } else { j - 1 };
            assert(after[i] == entries[a]);
            assert(after[j] == entries[b]);
        }
    }
}

/// A result of a candidate that has none among the entries leaves the
/// candidates distinct, wherever it is put.
pub proof fn lemma_insert_keeps_distinct(entries: Seq<MatchResultView>, r: MatchResultView, p: int)
    requires
        spec_distinct(entries),
        !spec_holds(entries, r.index),
        0 <= p <= entries.len(),
    ensures
        spec_distinct(entries.insert(p, r)),
{
    let after = entries.insert(p, r);
    assert forall|i: int, j: int| 0 <= i < j < after.len() implies (#[trigger] after[i]).index != (
    #[trigger] after[j]).index by {
        let a = if i < p { i } else { i - 1 };
        let b = if j < p { j } else { j - 1 };
        if i != p {
            assert(after[i] == entries[a]);
        }
        if j != p {
            assert(after[j] == entries[b]);
        }
    }
}

/// Two views that show the same results, each result before all that stand
/// behind it, are the same view: the order of the ranks leaves no choice.
pub proof fn lemma_strictly_ranked_unique(a: Seq<MatchResultView>, b: Seq<MatchResultView>)
    requires
        spec_strictly_ranked(a),
        spec_strictly_ranked(b),
        forall|r: MatchResultView| a.contains(r) <==> b.contains(r),
    ensures
        a == b,
    decreases a.len(),
{
    if a.len() == 0 {
        if b.len() > 0 {
            assert(b.contains(b[0]));
        }
        assert(a =~= b);
    } else {
        assert(a.contains(a[0]));
        assert(b.contains(a[0]));
        let j = choose|j: int| 0 <= j < b.len() && b[j] == a[0];
        assert(b.contains(b[0]));
        let i = choose|i: int| 0 <= i < a.len() && a[i] == b[0];
        if j > 0 {
            if i > 0 {
                lemma_precedes_transitive(a[0].rank, a[i].rank, b[j].rank);
            }
            lemma_precedes_irreflexive(a[0].rank);
        }
        assert(a[0] == b[0]);
        let ta = a.drop_first();
        let tb = b.drop_first();
        assert forall|r: MatchResultView| ta.contains(r) <==> tb.contains(r) by {
            if ta.contains(r) {
                let m = choose|m: int| 0 <= m < ta.len() && ta[m] == r;
                assert(a[m + 1] == r);
                assert(a.contains(r));
                let n = choose|n: int| 0 <= n < b.len() && b[n] == r;
                if n == 0 {
                    lemma_precedes_irreflexive(a[0].rank);
                }
                assert(tb[n - 1] == r);
            }
            if tb.contains(r) {
                let m = choose|m: int| 0 <= m < tb.len() && tb[m] == r;
                assert(b[m + 1] == r);
                assert(b.contains(r));
                let n = choose|n: int| 0 <= n < a.len() && a[n] == r;
                if n == 0 {
                    lemma_precedes_irreflexive(b[0].rank);
                }
                assert(ta[n - 1] == r);
            }
        }
        assert forall|x: int, y: int| 0 <= x < y < ta.len() implies spec_precedes(
            (#[trigger] ta[x]).rank,
            (#[trigger] ta[y]).rank,
        ) by {
            assert(ta[x] == a[x + 1] && ta[y] == a[y + 1]);
        }
        assert forall|x: int, y: int| 0 <= x < y < tb.len() implies spec_precedes(
            (#[trigger] tb[x]).rank,
            (#[trigger] tb[y]).rank,
        ) by {
            assert(tb[x] == b[x + 1] && tb[y] == b[y + 1]);
        }
        lemma_strictly_ranked_unique(ta, tb);
        assert(a =~= seq![a[0]] + ta);
        assert(b =~= seq![b[0]] + tb);
    }
}

/// Once a result of a generation has been taken, nothing that is tagged with
/// an older generation changes the view any more.
pub proof fn lemma_superseded_is_dropped(
    a: AggregatorView,
    newer: u64,
    first: MatchResultView,
    older: u64,
    late: MatchResultView,
)
    requires
        older < newer,
    ensures
        spec_accept(a, newer, first).generation >= newer,
        spec_accept(spec_accept(a, newer, first), older, late) == spec_accept(a, newer, first),
{
}

/// Once a generation has been issued to the view, nothing that is tagged
/// with an older generation changes the view any more.
pub proof fn lemma_issued_drops_older(a: AggregatorView, newer: u64, older: u64, late: MatchResultView)
    requires
        older < newer,
    ensures
        spec_start(a, newer).generation >= newer,
        spec_accept(spec_start(a, newer), older, late) == spec_start(a, newer),
{
}

/// The view never turns back to an older generation, and it shows results of
/// the generation it names only: a newer generation starts from nothing.
pub proof fn lemma_generation_only_grows(a: AggregatorView, generation: u64, r: MatchResultView)
    ensures
        spec_accept(a, generation, r).generation >= a.generation,
        spec_accept(a, generation, r).generation > a.generation ==> spec_accept(
            a,
            generation,
            r,
        ).entries == seq![r],
{
    if generation > a.generation {
        let base = spec_start(a, generation);
        assert(!spec_holds(base.entries, r.index));
        assert(base.entries.insert(0, r) =~= seq![r]);
    }
}

/// The place of a rank lies among the entries or right behind them.
pub proof fn lemma_place_in_bounds(entries: Seq<MatchResultView>, rank: RankView)
    ensures
        0 <= spec_place(entries, rank) <= entries.len(),
    decreases entries.len(),
{
    if entries.len() > 0 && !spec_precedes(rank, entries[0].rank) {
        lemma_place_in_bounds(entries.drop_first(), rank);
    }
}

/// Within one generation a result that arrives removes nothing and moves
/// nothing: what was shown before is what is shown now without the newcomer.
pub proof fn lemma_accept_keeps_shown(a: AggregatorView, r: MatchResultView)
    ensures
        spec_accept(a, a.generation, r).entries == a.entries || ({
            let p = spec_place(a.entries, r.rank);
            &&& 0 <= p <= a.entries.len()
            &&& spec_accept(a, a.generation, r).entries == a.entries.insert(p, r)
            &&& spec_accept(a, a.generation, r).entries.remove(p) == a.entries
        }),
{
    let p = spec_place(a.entries, r.rank);
    lemma_place_in_bounds(a.entries, r.rank);
    if !spec_holds(a.entries, r.index) {
        assert(a.entries.insert(p, r).remove(p) =~= a.entries);
    }
}

/// What the view is after the results, all tagged with `generation`, have
/// arrived one after the other.
pub open spec fn spec_accept_all(
    a: AggregatorView,
    generation: u64,
    results: Seq<MatchResultView>,
) -> AggregatorView
    decreases results.len(),
{
    if results.len() == 0 {
        a
    } else {
        spec_accept(
            spec_accept_all(a, generation, results.drop_last()),
            generation,
            results.last(),
        )
    }
}

/// Whether two results are the same result or results of different candidates.
pub open spec fn spec_agree(x: MatchResultView, y: MatchResultView) -> bool {
    x.index == y.index ==> x == y
}

/// Whether two results of different candidates have different ranks, each of
/// four keys.
pub open spec fn spec_told_apart(x: MatchResultView, y: MatchResultView) -> bool {
    &&& x.rank.ties.len() == 4
    &&& y.rank.ties.len() == 4
    &&& x.index != y.index ==> x.rank != y.rank
}

/// A view that takes results of its own generation, of which no two differ
/// for one candidate, shows afterwards what it showed before and every
/// result that arrived, in the order of the ranks and each candidate once.
pub proof fn lemma_accept_all_shows(a: AggregatorView, results: Seq<MatchResultView>)
    requires
        spec_ranked(a.entries),
        spec_distinct(a.entries),
        forall|x: MatchResultView, y: MatchResultView|
            (a.entries.contains(x) || results.contains(x)) && (a.entries.contains(y)
                || results.contains(y)) ==> spec_agree(x, y),
    ensures
        spec_accept_all(a, a.generation, results).generation == a.generation,
        spec_ranked(spec_accept_all(a, a.generation, results).entries),
        spec_distinct(spec_accept_all(a, a.generation, results).entries),
        forall|x: MatchResultView|
            #[trigger] spec_accept_all(a, a.generation, results).entries.contains(x) <==> (
            a.entries.contains(x) || results.contains(x)),
    decreases results.len(),
{
    if results.len() > 0 {
        let head = results.drop_last();
        let r = results.last();
        assert forall|x: MatchResultView| #[trigger] results.contains(x) <==> (head.contains(x) || x
            == r) by {
            if results.contains(x) {
                let i = choose|i: int| 0 <= i < results.len() && results[i] == x;
                if i < results.len() - 1 {
                    assert(head[i] == x);
                }
            }
            if head.contains(x) {
                let i = choose|i: int| 0 <= i < head.len() && head[i] == x;
                assert(results[i] == x);
            }
            if x == r {
                assert(results[results.len() - 1] == x);
            }
        }
        lemma_accept_all_shows(a, head);
        let b = spec_accept_all(a, a.generation, head);
        let c = spec_accept(b, a.generation, r);
        if spec_holds(b.entries, r.index) {
            let e = choose|e: int| 0 <= e < b.entries.len() && (#[trigger] b.entries[e]).index
                == r.index;
            assert(b.entries.contains(b.entries[e]));
            assert(results.contains(r));
            assert(spec_agree(b.entries[e], r));
            assert(b.entries.contains(r));
        } else {
            let p = spec_place(b.entries, r.rank);
            lemma_place_in_bounds(b.entries, r.rank);
            lemma_place_properties(b.entries, r.rank);
            lemma_insert_keeps_ranked(b.entries, r, p);
            lemma_insert_keeps_distinct(b.entries, r, p);
            assert forall|x: MatchResultView| #[trigger] c.entries.contains(x) <==> (
                b.entries.contains(x) || x == r) by {
                if c.entries.contains(x) {
                    let i = choose|i: int| 0 <= i < c.entries.len() && c.entries[i] == x;
                    if i < p {
                        assert(b.entries[i] == x);
                    } else if i > p {
                        assert(b.entries[i - 1] == x);
                    }
                }
                if b.entries.contains(x) {
                    let i = choose|i: int| 0 <= i < b.entries.len() && b.entries[i] == x;
                    if i < p {
                        assert(c.entries[i] == x);
                    } else {
                        assert(c.entries[i + 1] == x);
                    }
                }
                if x == r {
                    assert(c.entries[p] == x);
                }
            }
        }
        assert forall|x: MatchResultView| #[trigger] c.entries.contains(x) <==> (
            a.entries.contains(x) || results.contains(x)) by {
            assert(b.entries.contains(x) <==> (a.entries.contains(x) || head.contains(x)));
            assert(results.contains(x) <==> (head.contains(x) || x == r));
            assert(c.entries.contains(x) <==> (b.entries.contains(x) || x == r));
        }
    }
}

/// Before its place a rank precedes no entry, and it precedes the entry at
/// its place, if there is one.
pub proof fn lemma_place_properties(entries: Seq<MatchResultView>, rank: RankView)
    ensures
        forall|i: int|
            0 <= i < spec_place(entries, rank) ==> !spec_precedes(rank, (#[trigger] entries[i]).rank),
        spec_place(entries, rank) < entries.len() ==> spec_precedes(
            rank,
            entries[spec_place(entries, rank)].rank,
        ),
    decreases entries.len(),
{
    if entries.len() > 0 && !spec_precedes(rank, entries[0].rank) {
        let rest = entries.drop_first();
        lemma_place_properties(rest, rank);
        lemma_place_in_bounds(rest, rank);
        assert forall|i: int| 0 <= i < spec_place(entries, rank) implies !spec_precedes(
            rank,
            (#[trigger] entries[i]).rank,
        ) by {
            if i > 0 {
                assert(entries[i] == rest[i - 1]);
            }
        }
        if spec_place(entries, rank) < entries.len() {
            assert(entries[spec_place(entries, rank)] == rest[spec_place(rest, rank)]);
        }
    }
}

/// A ranked view of results that are told apart by their ranks, each
/// candidate shown once, shows each result before all that stand behind it.
pub proof fn lemma_told_apart_is_strict(entries: Seq<MatchResultView>)
    requires
        spec_ranked(entries),
        spec_distinct(entries),
        forall|i: int, j: int|
            0 <= i < entries.len() && 0 <= j < entries.len() ==> spec_told_apart(
                #[trigger] entries[i],
                #[trigger] entries[j],
            ),
    ensures
        spec_strictly_ranked(entries),
{
    assert forall|i: int, j: int| 0 <= i < j < entries.len() implies spec_precedes(
        (#[trigger] entries[i]).rank,
        (#[trigger] entries[j]).rank,
    ) by {
        assert(spec_told_apart(entries[i], entries[j]));
        crate::rank::lemma_precedes_total(entries[i].rank, entries[j].rank);
    }
}

/// The order in which the results of a generation arrive does not show:
/// two runs of results that hold the same results, told apart by their
/// ranks, leave the same view.
pub proof fn lemma_arrival_order_does_not_show(
    a: AggregatorView,
    first: Seq<MatchResultView>,
    second: Seq<MatchResultView>,
)
    requires
        spec_ranked(a.entries),
        spec_distinct(a.entries),
        forall|x: MatchResultView| first.contains(x) <==> second.contains(x),
        forall|x: MatchResultView, y: MatchResultView|
            (a.entries.contains(x) || first.contains(x)) && (a.entries.contains(y) || first.contains(
                y,
            )) ==> spec_agree(x, y) && spec_told_apart(x, y),
    ensures
        spec_accept_all(a, a.generation, first) == spec_accept_all(a, a.generation, second),
{
    lemma_accept_all_shows(a, first);
    lemma_accept_all_shows(a, second);
    let b = spec_accept_all(a, a.generation, first);
    let c = spec_accept_all(a, a.generation, second);
    assert forall|i: int, j: int|
        0 <= i < b.entries.len() && 0 <= j < b.entries.len() implies spec_told_apart(
        #[trigger] b.entries[i],
        #[trigger] b.entries[j],
    ) by {
        assert(b.entries.contains(b.entries[i]));
        assert(b.entries.contains(b.entries[j]));
    }
    assert forall|i: int, j: int|
        0 <= i < c.entries.len() && 0 <= j < c.entries.len() implies spec_told_apart(
        #[trigger] c.entries[i],
        #[trigger] c.entries[j],
    ) by {
        assert(c.entries.contains(c.entries[i]));
        assert(c.entries.contains(c.entries[j]));
    }
    lemma_told_apart_is_strict(b.entries);
    lemma_told_apart_is_strict(c.entries);
    assert forall|x: MatchResultView| #[trigger] b.entries.contains(x) <==> c.entries.contains(x) by {
        assert(b.entries.contains(x) <==> (a.entries.contains(x) || first.contains(x)));
        assert(c.entries.contains(x) <==> (a.entries.contains(x) || second.contains(x)));
    }
    lemma_strictly_ranked_unique(b.entries, c.entries);
}

/// Collects the results of the current generation in the order of their ranks.
#[derive(Debug)]
pub struct ResultAggregator {
    generation: u64,
    entries: Vec<MatchResult>,
}

impl View for ResultAggregator {
    type V = AggregatorView;

    closed spec fn view(&self) -> AggregatorView {
        AggregatorView { generation: self.generation, entries: spec_views(self.entries@) }
    }
}

/// A copy of the positions.
fn copy_positions(at: &Vec<usize>) -> (copy: Vec<usize>)
    ensures
        copy@ == at@,
{
    let mut copy: Vec<usize> = Vec::new();
    let mut k: usize = 0;
    while k < at.len()
        invariant
            k <= at.len(),
            copy@ == at@.subrange(0, k as int),
        decreases at.len() - k,
    {
        copy.push(at[k]);
        proof {
            assert(copy@ =~= at@.subrange(0, k + 1));
        }
        k += 1;
    }
    proof {
        assert(at@.subrange(0, at@.len() as int) =~= at@);
    }
    copy
}

impl ResultAggregator {
    #[verifier::type_invariant]
    closed spec fn well_formed(&self) -> bool {
        spec_ranked(spec_views(self.entries@)) && spec_distinct(spec_views(self.entries@))
    }

    /// Whether the view is in the order of its ranks and shows no candidate twice.
    pub open spec fn wf(&self) -> bool {
        spec_ranked(self@.entries) && spec_distinct(self@.entries)
    }

    /// An aggregator of generation 0 with nothing to show.
    pub fn new() -> (made: ResultAggregator)
        ensures
            made@ == (AggregatorView { generation: 0, entries: Seq::empty() }),
            made.wf(),
    {
        let made = ResultAggregator { generation: 0, entries: Vec::new() };
        proof {
            assert(spec_views(made.entries@) =~= Seq::<MatchResultView>::empty());
        }
        made
    }

    /// The generation whose results are shown.
    pub fn generation(&self) -> (generation: u64)
        ensures
            generation == self@.generation,
    {
        self.generation
    }

    /// The number of results shown.
    pub fn len(&self) -> (count: usize)
        ensures
            count == self@.entries.len(),
    {
        self.entries.len()
    }

    /// Turns to a newly issued generation. The results of the generation shown
    /// so far are dropped. A generation that is not newer changes nothing.
    pub fn start(&mut self, generation: u64) -> (turned: bool)
        ensures
            final(self)@ == spec_start(old(self)@, generation),
            turned == (generation > old(self)@.generation),
            final(self).wf(),
    {
        proof {
            use_type_invariant(&*self);
        }
        if generation > self.generation {
            let fresh = ResultAggregator { generation, entries: Vec::new() };
            proof {
                assert(spec_views(fresh.entries@) =~= Seq::<MatchResultView>::empty());
            }
            *self = fresh;
            true
        } else {
            false
        }
    }

    /// Takes a result that a worker found for `generation`.
    ///
    /// Gives the place at which the result now stands, or nothing where it was
    /// dropped: because its generation is older than the one shown, or
    /// because its candidate is shown already. A result of a newer generation
    /// turns the view to that generation. Within one generation, results that
    /// were shown before stay, in the order they had.
    pub fn accept(&mut self, generation: u64, result: MatchResult) -> (place: Option<usize>)
        ensures
            final(self)@ == spec_accept(old(self)@, generation, result@),
            final(self).wf(),
            match place {
                Some(p) => generation >= old(self)@.generation && !spec_holds(
                    spec_start(old(self)@, generation).entries,
                    result@.index,
                ) && p == spec_place(spec_start(old(self)@, generation).entries, result@.rank)
                    && final(self)@.entries == spec_start(old(self)@, generation).entries.insert(
                    p as int,
                    result@,
                ),
                None => (generation < old(self)@.generation || spec_holds(
                    spec_start(old(self)@, generation).entries,
                    result@.index,
                )) && (generation < old(self)@.generation ==> final(self)@ == old(self)@),
            },
    {
        proof {
            use_type_invariant(&*self);
        }
        if generation < self.generation {
            return None;
        }
        self.start(generation);
        let ghost base = *self;
        let ghost before = spec_views(self.entries@);
        let n = self.entries.len();
        let mut k: usize = 0;
        while k < n
            invariant
                k <= n,
                n == self.entries@.len(),
                before == spec_views(self.entries@),
                *self == base,
                base@ == spec_start(old(self)@, generation),
                generation >= old(self)@.generation,
                spec_ranked(before),
                spec_distinct(before),
                forall|i: int| 0 <= i < k ==> (#[trigger] before[i]).index != result.index,
            decreases n - k,
        {
            if self.entries[k].index == result.index {
                assert(before[k as int].index == result@.index);
                return None;
            }
            k += 1;
        }
        let mut p: usize = 0;
        while p < n && !result.rank.precedes(&self.entries[p].rank)
            invariant
                p <= n,
                n == self.entries@.len(),
                before == spec_views(self.entries@),
                *self == base,
                base@ == spec_start(old(self)@, generation),
                generation >= old(self)@.generation,
                spec_ranked(before),
                spec_distinct(before),
                forall|i: int| 0 <= i < p ==> !spec_precedes(result@.rank, (#[trigger] before[i]).rank),
            decreases n - p,
        {
            p += 1;
        }
        proof {
            lemma_place(before, result@.rank, p as int);
            lemma_insert_keeps_ranked(before, result@, p as int);
            lemma_insert_keeps_distinct(before, result@, p as int);
            assert(spec_views(self.entries@.insert(p as int, result)) =~= before.insert(
                p as int,
                result@,
            ));
            assert(spec_views(Seq::<MatchResult>::empty()) =~= Seq::<MatchResultView>::empty());
        }
        let mut entries: Vec<MatchResult> = Vec::new();
        std::mem::swap(&mut entries, &mut self.entries);
        entries.insert(p, result);
        self.entries = entries;
        Some(p)
    }

    /// Takes the results that a worker found for `generation`, one after the
    /// other.
    pub fn accept_all(&mut self, generation: u64, results: Vec<MatchResult>)
        ensures
            final(self)@ == spec_accept_all(old(self)@, generation, spec_views(results@)),
            final(self).wf(),
    {
        proof {
            use_type_invariant(&*self);
        }
        let ghost all = spec_views(results@);
        let ghost start = self@;
        proof {
            assert(all.subrange(0, 0) =~= Seq::<MatchResultView>::empty());
        }
        for r in it: results
            invariant
                it.seq() == results@,
                all == spec_views(results@),
                self@ == spec_accept_all(start, generation, all.subrange(0, it.index() as int)),
                self.wf(),
        {
            proof {
                let longer = all.subrange(0, it.index() + 1);
                assert(longer.drop_last() =~= all.subrange(0, it.index() as int));
                assert(longer.last() == r@);
            }
            self.accept(generation, r);
        }
        proof {
            assert(all.subrange(0, all.len() as int) =~= all);
        }
    }

    /// The results as they are shown now: for each, the insertion index of its
    /// candidate and the matched positions, best first.
    pub fn snapshot(&self) -> (shown: Vec<(usize, Vec<usize>)>)
        ensures
            shown@.len() == self@.entries.len(),
            forall|i: int|
                0 <= i < shown@.len() ==> (#[trigger] shown@[i]).0 == self@.entries[i].index
                    && shown@[i].1@ == self@.entries[i].matched,
            self.wf(),
    {
        proof {
            use_type_invariant(self);
        }
        let mut shown: Vec<(usize, Vec<usize>)> = Vec::new();
        let mut k: usize = 0;
        while k < self.entries.len()
            invariant
                k <= self.entries@.len(),
                shown@.len() == k,
                forall|i: int|
                    0 <= i < k ==> (#[trigger] shown@[i]).0 == self.entries@[i].index
                        && shown@[i].1@ == self.entries@[i].matched@,
            decreases self.entries@.len() - k,
        {
            let entry = &self.entries[k];
            shown.push((entry.index, copy_positions(&entry.matched)));
            k += 1;
        }
        shown
    }
}

} // verus!
