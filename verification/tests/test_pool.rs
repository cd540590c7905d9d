use skimmer::item::{Candidate, ItemPool};

#[test]
fn a_new_pool_is_empty() {
    let pool = ItemPool::new();
    assert_eq!(pool.len(), 0);
    assert!(!pool.is_frozen());
    assert!(pool.get(0).is_none());
}

#[test]
fn append_gives_the_indices_in_order() {
    let mut pool = ItemPool::new();
    assert_eq!(pool.append(Candidate::new("a".to_string())), Some(0));
    assert_eq!(pool.append(Candidate::new("b".to_string())), Some(1));
    assert_eq!(pool.append(Candidate::new("c".to_string())), Some(2));
    assert_eq!(pool.len(), 3);
    assert_eq!(pool.get(0).unwrap().text(), "a");
    assert_eq!(pool.get(1).unwrap().text(), "b");
    assert_eq!(pool.get(2).unwrap().text(), "c");
    assert!(pool.get(3).is_none());
}

#[test]
fn an_index_stays_valid_while_the_pool_grows() {
    let mut pool = ItemPool::new();
    pool.append(Candidate::new("first".to_string()));
    for i in 0..100 {
        pool.append(Candidate::new(format!("line {}", i)));
    }
    assert_eq!(pool.get(0).unwrap().text(), "first");
    assert_eq!(pool.get(100).unwrap().text(), "line 99");
    assert_eq!(pool.len(), 101);
}

#[test]
fn a_frozen_pool_takes_nothing() {
    let mut pool = ItemPool::new();
    pool.append(Candidate::new("a".to_string()));
    pool.freeze();
    assert!(pool.is_frozen());
    assert_eq!(pool.append(Candidate::new("b".to_string())), None);
    assert_eq!(pool.len(), 1);
    assert_eq!(pool.get(0).unwrap().text(), "a");
}

#[test]
fn a_candidate_is_printed_as_it_is_shown_unless_told_otherwise() {
    let c = Candidate::new("shown".to_string());
    assert_eq!(c.text(), "shown");
    assert_eq!(c.output(), "shown");
    assert!(c.matching_ranges().is_none());
    let c = c.with_output("printed".to_string());
    assert_eq!(c.text(), "shown");
    assert_eq!(c.output(), "printed");
}

#[test]
fn a_restricted_candidate_keeps_its_ranges() {
    let c = Candidate::restricted("foo 123".to_string(), vec![(4, 7), (0, 3)]).unwrap();
    assert_eq!(c.matching_ranges(), Some(&vec![(4, 7), (0, 3)]));
    assert_eq!(c.output(), "foo 123");
}
