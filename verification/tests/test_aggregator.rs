use skimmer::aggregator::ResultAggregator;
use skimmer::rank::Rank;
use skimmer::result::MatchResult;

fn result(index: usize, score: i32) -> MatchResult {
    MatchResult { index, rank: Rank { score, ties: [0, 0, 0, index] }, matched: vec![index, index + 1] }
}

fn indices(view: &ResultAggregator) -> Vec<usize> {
    view.snapshot().into_iter().map(|(index, _)| index).collect()
}

#[test]
fn a_new_view_shows_nothing() {
    let view = ResultAggregator::new();
    assert_eq!(view.generation(), 0);
    assert_eq!(view.len(), 0);
    assert!(view.snapshot().is_empty());
}

#[test]
fn results_are_shown_best_first() {
    let mut view = ResultAggregator::new();
    assert_eq!(view.accept(0, result(0, 10)), Some(0));
    assert_eq!(view.accept(0, result(1, 30)), Some(0));
    assert_eq!(view.accept(0, result(2, 20)), Some(1));
    assert_eq!(view.accept(0, result(3, 5)), Some(3));
    assert_eq!(indices(&view), vec![1, 2, 0, 3]);
    assert_eq!(view.snapshot()[0], (1, vec![1, 2]));
}

#[test]
fn the_order_of_arrival_does_not_show() {
    let scores = [(0, 10), (1, 30), (2, 20), (3, 5), (4, 20), (5, 30)];
    let mut forward = ResultAggregator::new();
    for (i, s) in scores.iter() {
        forward.accept(0, result(*i, *s));
    }
    let mut backward = ResultAggregator::new();
    for (i, s) in scores.iter().rev() {
        backward.accept(0, result(*i, *s));
    }
    assert_eq!(indices(&forward), vec![1, 5, 2, 4, 0, 3]);
    assert_eq!(forward.snapshot(), backward.snapshot());
}

#[test]
fn equal_scores_are_shown_in_the_order_of_the_indices() {
    let mut view = ResultAggregator::new();
    view.accept(0, result(7, 1));
    view.accept(0, result(3, 1));
    view.accept(0, result(5, 1));
    assert_eq!(indices(&view), vec![3, 5, 7]);
}

#[test]
fn what_was_shown_stays_in_its_order() {
    let mut view = ResultAggregator::new();
    view.accept(0, result(0, 10));
    view.accept(0, result(1, 30));
    let before = indices(&view);
    let place = view.accept(0, result(2, 20)).unwrap();
    let mut after = indices(&view);
    assert_eq!(after[place], 2);
    after.remove(place);
    assert_eq!(after, before);
}

#[test]
fn a_candidate_is_shown_once() {
    let mut view = ResultAggregator::new();
    assert_eq!(view.accept(0, result(4, 10)), Some(0));
    assert_eq!(view.accept(0, result(4, 99)), None);
    assert_eq!(view.len(), 1);
    assert_eq!(view.snapshot()[0], (4, vec![4, 5]));
}

#[test]
fn a_newly_issued_generation_starts_from_nothing() {
    let mut view = ResultAggregator::new();
    view.accept(0, result(0, 10));
    assert!(view.start(1));
    assert_eq!(view.generation(), 1);
    assert_eq!(view.len(), 0);
    assert!(!view.start(1));
    assert!(!view.start(0));
    assert_eq!(view.generation(), 1);
}

#[test]
fn results_of_a_superseded_generation_are_dropped() {
    let mut view = ResultAggregator::new();
    view.start(1);
    view.accept(1, result(0, 10));
    view.start(2);
    assert_eq!(view.accept(1, result(1, 50)), None);
    assert_eq!(view.len(), 0);
    assert_eq!(view.accept(2, result(2, 5)), Some(0));
    assert_eq!(view.accept(1, result(3, 50)), None);
    assert_eq!(indices(&view), vec![2]);
    assert_eq!(view.generation(), 2);
}

#[test]
fn the_first_result_of_a_newer_generation_turns_the_view() {
    let mut view = ResultAggregator::new();
    view.start(1);
    view.accept(1, result(0, 10));
    view.accept(1, result(1, 20));
    assert_eq!(view.accept(2, result(5, 1)), Some(0));
    assert_eq!(view.generation(), 2);
    assert_eq!(indices(&view), vec![5]);
    assert_eq!(view.accept(1, result(6, 99)), None);
    assert_eq!(indices(&view), vec![5]);
}

#[test]
fn a_snapshot_can_be_taken_again() {
    let mut view = ResultAggregator::new();
    view.accept(0, result(0, 10));
    view.accept(0, result(1, 30));
    let first = view.snapshot();
    let second = view.snapshot();
    assert_eq!(first, second);
    assert_eq!(first, vec![(1, vec![1, 2]), (0, vec![0, 1])]);
}

#[test]
fn a_batch_is_taken_result_by_result() {
    let mut view = ResultAggregator::new();
    view.accept_all(0, vec![result(0, 10), result(1, 30), result(0, 99), result(2, 20)]);
    assert_eq!(indices(&view), vec![1, 2, 0]);
    view.accept_all(0, vec![]);
    assert_eq!(indices(&view), vec![1, 2, 0]);
    view.accept_all(3, vec![result(9, 1), result(8, 2)]);
    assert_eq!(view.generation(), 3);
    assert_eq!(indices(&view), vec![8, 9]);
    view.accept_all(2, vec![result(7, 100)]);
    assert_eq!(indices(&view), vec![8, 9]);
}
