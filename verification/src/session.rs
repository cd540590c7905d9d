//! A whole pass over the pool, and what holds of its ranked view.

use crate::aggregator::{
    lemma_strictly_ranked_unique, spec_distinct, spec_holds, spec_ranked, spec_strictly_ranked,
    ResultAggregator,
};
use crate::engine::fuzzy::{spec_match_item, EngineView, FuzzyEngine};
use crate::item::{Candidate, ItemPool};
use crate::rank::{lemma_precedes_total, lemma_rank_tells_indices_apart, spec_is_order};
use crate::result::MatchResultView;
use vstd::prelude::*;

verus! {

/// Whether `r` is the result of matching one of the first `count` candidates.
pub open spec fn spec_is_result(
    engine: EngineView,
    items: Seq<Candidate>,
    count: int,
    r: MatchResultView,
) -> bool {
    exists|i: int|
        0 <= i < count && i < items.len() && #[trigger] spec_match_item(
            engine,
            items[i]@,
            i as usize,
        ) == Some(r)
}

/// Whether the entries are the results of matching the first `count`
/// candidates, all of them and nothing else.
pub open spec fn spec_shows(
    entries: Seq<MatchResultView>,
    engine: EngineView,
    items: Seq<Candidate>,
    count: int,
) -> bool {
    forall|r: MatchResultView| entries.contains(r) <==> spec_is_result(engine, items, count, r)
}

/// A view that shows results of one pass, in the order of their ranks and
/// each candidate once, shows each result before all that stand behind it.
pub proof fn lemma_pass_view_is_strict(
    entries: Seq<MatchResultView>,
    engine: EngineView,
    items: Seq<Candidate>,
)
    requires
        spec_is_order(engine.criteria),
        spec_ranked(entries),
        spec_distinct(entries),
        forall|r: MatchResultView|
            entries.contains(r) ==> spec_is_result(engine, items, items.len() as int, r),
    ensures
        spec_strictly_ranked(entries),
{
    assert forall|i: int, j: int| 0 <= i < j < entries.len() implies crate::rank::spec_precedes(
        (#[trigger] entries[i]).rank,
        (#[trigger] entries[j]).rank,
    ) by {
        let a = entries[i];
        let b = entries[j];
        assert(entries.contains(a));
        assert(entries.contains(b));
        let x = choose|x: int|
            0 <= x < items.len() && #[trigger] spec_match_item(engine, items[x]@, x as usize)
                == Some(a);
        let y = choose|y: int|
            0 <= y < items.len() && #[trigger] spec_match_item(engine, items[y]@, y as usize)
                == Some(b);
        assert(a.index != b.index);
        let fa = crate::engine::fuzzy::spec_first_match(
            engine,
            items[x]@.text,
            crate::engine::fuzzy::spec_eligible(items[x]@),
        )->0;
        let fb = crate::engine::fuzzy::spec_first_match(
            engine,
            items[y]@.text,
            crate::engine::fuzzy::spec_eligible(items[y]@),
        )->0;
        lemma_rank_tells_indices_apart(
            engine.criteria,
            fa.0 as i32,
            crate::engine::fuzzy::spec_first(fa.1),
            crate::engine::fuzzy::spec_last(fa.1),
            vstd::utf8::encode_utf8(items[x]@.text).len() as usize,
            a.index,
            fb.0 as i32,
            crate::engine::fuzzy::spec_first(fb.1),
            crate::engine::fuzzy::spec_last(fb.1),
            vstd::utf8::encode_utf8(items[y]@.text).len() as usize,
            b.index,
        );
        lemma_precedes_total(a.rank, b.rank);
    }
}

/// Running one query against one unchanged pool gives one ranked view: two
/// views that show the results of the pass, in the order of their ranks and
/// each candidate once, are the same, in whatever order the results arrived.
pub proof fn lemma_pass_view_is_determined(
    first: Seq<MatchResultView>,
    second: Seq<MatchResultView>,
    engine: EngineView,
    items: Seq<Candidate>,
)
    requires
        spec_is_order(engine.criteria),
        spec_ranked(first),
        spec_distinct(first),
        spec_ranked(second),
        spec_distinct(second),
        spec_shows(first, engine, items, items.len() as int),
        spec_shows(second, engine, items, items.len() as int),
    ensures
        first == second,
{
    lemma_pass_view_is_strict(first, engine, items);
    lemma_pass_view_is_strict(second, engine, items);
    lemma_strictly_ranked_unique(first, second);
}

/// Candidates that are added to the pool change no result of a candidate
/// that was there before: what was a result of the pass stays one.
pub proof fn lemma_growth_keeps_results(
    engine: EngineView,
    items: Seq<Candidate>,
    more: Seq<Candidate>,
    r: MatchResultView,
)
    ensures
        spec_is_result(engine, items, items.len() as int, r) ==> spec_is_result(
            engine,
            items + more,
            (items + more).len() as int,
            r,
        ),
        spec_is_result(engine, items, items.len() as int, r) <==> spec_is_result(
            engine,
            items + more,
            items.len() as int,
            r,
        ),
{
    let grown = items + more;
    if spec_is_result(engine, items, items.len() as int, r) {
        let i = choose|i: int|
            0 <= i < items.len() && #[trigger] spec_match_item(engine, items[i]@, i as usize)
                == Some(r);
        assert(grown[i] == items[i]);
        assert(spec_match_item(engine, grown[i]@, i as usize) == Some(r));
    }
    if spec_is_result(engine, grown, items.len() as int, r) {
        let i = choose|i: int|
            0 <= i < items.len() && i < grown.len() && #[trigger] spec_match_item(
                engine,
                grown[i]@,
                i as usize,
            ) == Some(r);
        assert(grown[i] == items[i]);
        assert(spec_match_item(engine, items[i]@, i as usize) == Some(r));
    }
}

/// Matches every candidate of the pool, one after the other, and collects
/// the results in a ranked view of the given generation.
pub fn rank_pool(engine: &FuzzyEngine, pool: &ItemPool, generation: u64) -> (view: ResultAggregator)
    ensures
        view@.generation == generation,
        view.wf(),
        spec_shows(view@.entries, engine@, pool@.items, pool@.items.len() as int),
{
    let mut view = ResultAggregator::new();
    view.start(generation);
    let len = pool.len();
    let mut k: usize = 0;
    while k < len
        invariant
            k <= len,
            len == pool@.items.len(),
            view@.generation == generation,
            view.wf(),
            spec_shows(view@.entries, engine@, pool@.items, k as int),
        decreases len - k,
    {
        let ghost before = view@.entries;
        let ghost items = pool@.items;
        let found = match pool.get(k) {
            Some(item) => engine.match_item(item, k),
            None => None,
        };
        proof {
            assert forall|r: MatchResultView|
                spec_is_result(engine@, items, k + 1, r) <==> (spec_is_result(
                    engine@,
                    items,
                    k as int,
                    r,
                ) || spec_match_item(engine@, items[k as int]@, k) == Some(r)) by {
                if spec_is_result(engine@, items, k + 1, r) {
                    let i = choose|i: int|
                        0 <= i < k + 1 && i < items.len() && #[trigger] spec_match_item(
                            engine@,
                            items[i]@,
                            i as usize,
                        ) == Some(r);
                    if i < k {
                        assert(spec_is_result(engine@, items, k as int, r));
                    }
                }
                if spec_is_result(engine@, items, k as int, r) {
                    let i = choose|i: int|
                        0 <= i < k && i < items.len() && #[trigger] spec_match_item(
                            engine@,
                            items[i]@,
                            i as usize,
                        ) == Some(r);
                    assert(0 <= i < k + 1);
                }
                if spec_match_item(engine@, items[k as int]@, k) == Some(r) {
                    let i = k as int;
                    assert(0 <= i < k + 1 && i < items.len() && spec_match_item(
                        engine@,
                        items[i]@,
                        i as usize,
                    ) == Some(r));
                }
            }
        }
        match found {
            Some(r) => {
                let ghost rv = r@;
                proof {
                    assert(rv.index == k);
                    if spec_holds(before, rv.index) {
                        let e = choose|e: int|
                            0 <= e < before.len() && (#[trigger] before[e]).index == rv.index;
                        assert(before.contains(before[e]));
                        assert(spec_is_result(engine@, items, k as int, before[e]));
                        let i = choose|i: int|
                            0 <= i < k && i < items.len() && #[trigger] spec_match_item(
                                engine@,
                                items[i]@,
                                i as usize,
                            ) == Some(before[e]);
                        assert(before[e].index == i);
                        assert(false);
                    }
                }
                let ghost shown = view@;
                let place = view.accept(generation, r);
                proof {
                    assert(crate::aggregator::spec_start(shown, generation) == shown);
                    assert(!spec_holds(shown.entries, rv.index));
                    assert(place is Some);
                    let p = place->0 as int;
                    let after = view@.entries;
                    assert(after == before.insert(p, rv));
                    crate::aggregator::lemma_place_in_bounds(before, rv.rank);
                    assert forall|x: MatchResultView| after.contains(x) <==> (before.contains(x)
                        || x == rv) by {
                        if after.contains(x) {
                            let i = choose|i: int| 0 <= i < after.len() && after[i] == x;
                            if i < p {
                                assert(before[i] == x);
                            } else if i > p {
                                assert(before[i - 1] == x);
                            }
                        }
                        if before.contains(x) {
                            let i = choose|i: int| 0 <= i < before.len() && before[i] == x;
                            if i < p {
                                assert(after[i] == x);
                            } else {
                                assert(after[i + 1] == x);
                            }
                        }
                        if x == rv {
                            assert(after[p] == x);
                        }
                    }
                }
            },
            None => {},
        }
        proof {
            let after = view@.entries;
            assert forall|r: MatchResultView| after.contains(r) <==> spec_is_result(
                engine@,
                items,
                k + 1,
                r,
            ) by {
                assert(before.contains(r) <==> spec_is_result(engine@, items, k as int, r));
            }
        }
        k += 1;
    }
    view
}

} // verus!
