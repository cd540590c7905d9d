use fuzzy_matcher::clangd::ClangdMatcher;
use fuzzy_matcher::skim::SkimMatcherV2;
use fuzzy_matcher::FuzzyMatcher;
use skimmer::engine::fuzzy::{
    fuzzy_match_with, hold_to_case, leftmost_places, respects_case, FuzzyAlgorithm, FuzzyEngine,
    BYTES_1M,
};
use skimmer::field::{Delimiter, FieldRange};
use skimmer::item::Candidate;
use skimmer::options::{CaseMatching, ConfigError};
use skimmer::rank::{RankBuilder, RankCriteria};
use std::sync::Arc;

fn engine(query: &str) -> FuzzyEngine {
    FuzzyEngine::builder().query(query).build()
}

fn second_field(text: &str) -> Candidate {
    Candidate::with_fields(text.to_string(), Delimiter::Whitespace, &vec![FieldRange::Single(2)])
}

#[test]
fn algorithm_names_are_read_without_regard_to_case() {
    assert_eq!(FuzzyAlgorithm::of("skim_v1"), Ok(FuzzyAlgorithm::SkimV1));
    assert_eq!(FuzzyAlgorithm::of("SKIM_V1"), Ok(FuzzyAlgorithm::SkimV1));
    assert_eq!(FuzzyAlgorithm::of("skim_v2"), Ok(FuzzyAlgorithm::SkimV2));
    assert_eq!(FuzzyAlgorithm::of("skim"), Ok(FuzzyAlgorithm::SkimV2));
    assert_eq!(FuzzyAlgorithm::of("Skim"), Ok(FuzzyAlgorithm::SkimV2));
    assert_eq!(FuzzyAlgorithm::of("clangd"), Ok(FuzzyAlgorithm::Clangd));
    assert_eq!(FuzzyAlgorithm::of("ClangD"), Ok(FuzzyAlgorithm::Clangd));
}

#[test]
fn an_unknown_algorithm_name_is_refused() {
    assert_eq!(FuzzyAlgorithm::of(""), Err(ConfigError::InvalidAlgorithm));
    assert_eq!(FuzzyAlgorithm::of("bogus"), Err(ConfigError::InvalidAlgorithm));
    assert_eq!(FuzzyAlgorithm::of("fzy"), Err(ConfigError::InvalidAlgorithm));
    assert_eq!(FuzzyAlgorithm::of("skim_v3"), Err(ConfigError::InvalidAlgorithm));
    assert_eq!(FuzzyAlgorithm::of("skim_v"), Err(ConfigError::InvalidAlgorithm));
    assert_eq!(FuzzyAlgorithm::of(" clangd"), Err(ConfigError::InvalidAlgorithm));
    assert_eq!(FuzzyAlgorithm::default(), FuzzyAlgorithm::SkimV2);
}

#[test]
fn empty_query_matches_with_score_zero_and_no_position() {
    let found = engine("").match_item(&Candidate::new("anything".to_string()), 3).unwrap();
    assert_eq!(found.index, 3);
    assert_eq!(found.rank.score, 0);
    assert_eq!(found.matched, Vec::<usize>::new());
    assert_eq!(found.rank.ties, [0, 0, 8, 3]);
}

#[test]
fn empty_query_matches_an_empty_text() {
    let found = engine("").match_item(&Candidate::new(String::new()), 0).unwrap();
    assert_eq!(found.rank.score, 0);
    assert!(found.matched.is_empty());
}

#[test]
fn empty_query_finds_nothing_where_no_range_is_selected() {
    let item = Candidate::restricted("abc".to_string(), vec![]).unwrap();
    assert!(engine("").match_item(&item, 0).is_none());
}

#[test]
fn empty_text_matches_no_other_query() {
    for algorithm in [FuzzyAlgorithm::SkimV1, FuzzyAlgorithm::SkimV2, FuzzyAlgorithm::Clangd] {
        let e = FuzzyEngine::builder().query("a").algorithm(algorithm).build();
        assert!(e.match_item(&Candidate::new(String::new()), 0).is_none());
        assert!(e.fuzzy_match("", "a").is_none());
    }
}

#[test]
fn each_algorithm_reports_the_matched_positions() {
    for algorithm in [FuzzyAlgorithm::SkimV1, FuzzyAlgorithm::SkimV2, FuzzyAlgorithm::Clangd] {
        let found = fuzzy_match_with(algorithm, CaseMatching::Smart, BYTES_1M, "axbycz", "abc");
        let (_, at) = found.unwrap();
        assert_eq!(at, vec![0, 2, 4]);
        let found = fuzzy_match_with(algorithm, CaseMatching::Smart, BYTES_1M, "axbycz", "xyz");
        let (_, at) = found.unwrap();
        assert_eq!(at, vec![1, 3, 5]);
        assert!(fuzzy_match_with(algorithm, CaseMatching::Smart, BYTES_1M, "abc", "abx").is_none());
    }
}

#[test]
fn restriction_to_the_second_field() {
    let e = engine("123");
    let found = e.match_item(&second_field("foo 123"), 0).unwrap();
    assert_eq!(found.matched, vec![4, 5, 6]);
    assert!(e.match_item(&second_field("bar 456"), 1).is_none());
}

#[test]
fn restriction_hides_what_stands_in_other_fields() {
    let e = engine("123");
    assert!(e.match_item(&second_field("123 foo"), 0).is_none());
    assert!(e.match_item(&Candidate::new("123 foo".to_string()), 0).is_some());
    let f = engine("f");
    assert!(f.match_item(&second_field("foo 123"), 0).is_none());
}

#[test]
fn positions_count_characters_of_the_whole_text() {
    let e = engine("wörld");
    let found = e.match_item(&second_field("héllo wörld"), 0).unwrap();
    assert_eq!(found.matched, vec![6, 7, 8, 9, 10]);
    assert_eq!(found.rank.ties, [6, 4, 13, 0]);
}

#[test]
fn positions_stay_inside_the_selected_range() {
    let item = Candidate::restricted("日本語 abc abc".to_string(), vec![(10, 13)]).unwrap();
    let found = engine("abc").match_item(&item, 0).unwrap();
    assert_eq!(found.matched, vec![4, 5, 6]);
    let item = Candidate::restricted("日本語 abc abc".to_string(), vec![(14, 17)]).unwrap();
    let found = engine("abc").match_item(&item, 0).unwrap();
    assert_eq!(found.matched, vec![8, 9, 10]);
}

#[test]
fn the_first_range_that_matches_decides() {
    let text = "xaxbxc abc";
    let item = Candidate::restricted(text.to_string(), vec![(0, 6), (7, 10)]).unwrap();
    let found = engine("abc").match_item(&item, 0).unwrap();
    assert_eq!(found.matched, vec![1, 3, 5]);
    let item = Candidate::restricted(text.to_string(), vec![(7, 10), (0, 6)]).unwrap();
    let found = engine("abc").match_item(&item, 0).unwrap();
    assert_eq!(found.matched, vec![7, 8, 9]);
}

#[test]
fn a_range_without_a_match_is_passed_over() {
    let item = Candidate::restricted("foo bar".to_string(), vec![(0, 3), (4, 7)]).unwrap();
    let found = engine("bar").match_item(&item, 0).unwrap();
    assert_eq!(found.matched, vec![4, 5, 6]);
}

#[test]
fn ranges_are_held_back_to_the_text() {
    let item = Candidate::restricted("abc".to_string(), vec![(1, 100)]).unwrap();
    let found = engine("c").match_item(&item, 0).unwrap();
    assert_eq!(found.matched, vec![2]);
    let item = Candidate::restricted("abc".to_string(), vec![(50, 100)]).unwrap();
    assert!(engine("c").match_item(&item, 0).is_none());
}

#[test]
fn ranges_must_fit_the_text() {
    assert!(Candidate::restricted("héllo".to_string(), vec![(2, 3)]).is_none());
    assert!(Candidate::restricted("héllo".to_string(), vec![(0, 2)]).is_none());
    assert!(Candidate::restricted("héllo".to_string(), vec![(3, 1)]).is_none());
    assert!(Candidate::restricted("héllo".to_string(), vec![(1, 3)]).is_some());
    assert!(Candidate::restricted("héllo".to_string(), vec![(0, 6), (2, 3)]).is_none());
}

#[test]
fn smart_case_respects_case_where_the_query_has_a_capital() {
    let e = FuzzyEngine::builder().query("Foo").case(CaseMatching::Smart).build();
    assert!(e.match_item(&Candidate::new("foo bar".to_string()), 0).is_none());
    assert!(e.match_item(&Candidate::new("Foo bar".to_string()), 0).is_some());
    let e = FuzzyEngine::builder().query("foo").case(CaseMatching::Smart).build();
    assert!(e.match_item(&Candidate::new("FOO bar".to_string()), 0).is_some());
}

#[test]
fn case_modes_of_the_structural_algorithm() {
    let build = |query: &str, case: CaseMatching| {
        FuzzyEngine::builder().query(query).case(case).algorithm(FuzzyAlgorithm::Clangd).build()
    };
    let item = Candidate::new("foo bar".to_string());
    assert!(build("Foo", CaseMatching::Smart).match_item(&item, 0).is_none());
    assert!(build("Foo", CaseMatching::Respect).match_item(&item, 0).is_none());
    assert!(build("Foo", CaseMatching::Ignore).match_item(&item, 0).is_some());
    assert!(build("foo", CaseMatching::Smart).match_item(&Candidate::new("FOO".to_string()), 0).is_some());
    assert!(build("foo", CaseMatching::Respect).match_item(&Candidate::new("FOO".to_string()), 0).is_none());
}

#[test]
fn respect_and_ignore() {
    let item = Candidate::new("FOO bar".to_string());
    let e = FuzzyEngine::builder().query("foo").case(CaseMatching::Respect).build();
    assert!(e.match_item(&item, 0).is_none());
    let e = FuzzyEngine::builder().query("Foo").case(CaseMatching::Ignore).build();
    assert!(e.match_item(&item, 0).is_some());
}

#[test]
fn exact_match_ranks_above_scattered_match() {
    for algorithm in [FuzzyAlgorithm::SkimV1, FuzzyAlgorithm::SkimV2, FuzzyAlgorithm::Clangd] {
        let e = FuzzyEngine::builder().query("abc").algorithm(algorithm).build();
        let tight = e.match_item(&Candidate::new("abc".to_string()), 0).unwrap();
        let loose = e.match_item(&Candidate::new("xaxbxc".to_string()), 1).unwrap();
        assert!(tight.rank.precedes(&loose.rank));
        assert!(!loose.rank.precedes(&tight.rank));
        assert!(tight.rank.score > loose.rank.score);
    }
}

#[test]
fn an_attempt_over_the_budget_finds_nothing() {
    assert!(fuzzy_match_with(FuzzyAlgorithm::SkimV2, CaseMatching::Smart, 16, "abc", "abc").is_some());
    assert!(fuzzy_match_with(FuzzyAlgorithm::SkimV2, CaseMatching::Smart, 15, "abc", "abc").is_none());
    assert!(fuzzy_match_with(FuzzyAlgorithm::Clangd, CaseMatching::Smart, 15, "abc", "abc").is_none());
    assert!(fuzzy_match_with(FuzzyAlgorithm::SkimV1, CaseMatching::Smart, 1, "a", "a").is_none());
    assert!(fuzzy_match_with(FuzzyAlgorithm::SkimV1, CaseMatching::Smart, 4, "a", "a").is_some());
    let found = fuzzy_match_with(FuzzyAlgorithm::SkimV2, CaseMatching::Smart, 1, "abc", "");
    assert_eq!(found, Some((0, vec![])));
    let e = FuzzyEngine::builder().query("abc").element_budget(15).build();
    assert!(e.match_item(&Candidate::new("abc".to_string()), 0).is_none());
    assert!(e.match_item(&Candidate::new("ab".to_string()), 0).is_none());
}

#[test]
fn the_rank_follows_the_configured_order() {
    let order = vec![RankCriteria::Index, RankCriteria::Length, RankCriteria::Span, RankCriteria::Begin];
    let builder = Arc::new(RankBuilder::new(&order).unwrap());
    let e = FuzzyEngine::builder().query("bd").rank_builder(builder).build();
    let found = e.match_item(&Candidate::new("abcde".to_string()), 7).unwrap();
    assert_eq!(found.matched, vec![1, 3]);
    assert_eq!(found.rank.ties, [7, 5, 2, 1]);
}

#[test]
fn the_engine_describes_itself() {
    assert_eq!(engine("abc").describe(), "(Fuzzy: abc)");
    assert_eq!(engine("").describe(), "(Fuzzy: )");
}

#[test]
fn matching_twice_gives_the_same_result() {
    let e = engine("abc");
    let warm = Candidate::new("aaaa bbbb cccc abcabcabc".to_string());
    let item = Candidate::new("aabbcc".to_string());
    let first = e.match_item(&item, 0).unwrap();
    let _ = e.match_item(&warm, 1);
    let second = e.match_item(&item, 0).unwrap();
    assert_eq!(first.rank.score, second.rank.score);
    assert_eq!(first.matched, second.matched);
    assert_eq!(first.rank.ties, second.rank.ties);
}

#[test]
fn scores_of_the_three_algorithms() {
    let score = |algorithm: FuzzyAlgorithm, choice: &str, pattern: &str| {
        fuzzy_match_with(algorithm, CaseMatching::Smart, BYTES_1M, choice, pattern).unwrap().0
    };
    assert_eq!(score(FuzzyAlgorithm::SkimV1, "abc", "abc"), 52);
    assert_eq!(score(FuzzyAlgorithm::SkimV1, "xaxbxc", "abc"), 14);
    assert_eq!(score(FuzzyAlgorithm::SkimV2, "abc", "abc"), 71);
    assert_eq!(score(FuzzyAlgorithm::SkimV2, "xaxbxc", "abc"), 39);
    assert_eq!(score(FuzzyAlgorithm::SkimV2, "foo bar", "fb"), 49);
    assert_eq!(score(FuzzyAlgorithm::Clangd, "abc", "abc"), 102);
    assert_eq!(score(FuzzyAlgorithm::Clangd, "xaxbxc", "abc"), -6);
}

#[test]
fn the_score_is_the_score_of_the_rank() {
    let found = engine("abc").match_item(&Candidate::new("abc".to_string()), 0).unwrap();
    assert_eq!(found.rank.score, 71);
    assert_eq!(found.rank.ties, [0, 2, 3, 0]);
}

#[test]
fn when_the_case_of_letters_counts() {
    assert!(respects_case(CaseMatching::Respect, "abc"));
    assert!(respects_case(CaseMatching::Respect, ""));
    assert!(!respects_case(CaseMatching::Ignore, "ABC"));
    assert!(respects_case(CaseMatching::Smart, "abC"));
    assert!(respects_case(CaseMatching::Smart, "Abc"));
    assert!(!respects_case(CaseMatching::Smart, "abc"));
    assert!(!respects_case(CaseMatching::Smart, ""));
    assert!(!respects_case(CaseMatching::Smart, "äÖü"));
    assert!(!respects_case(CaseMatching::Smart, "a1_@["));
}

#[test]
fn every_algorithm_honours_the_case_mode() {
    for algorithm in [FuzzyAlgorithm::SkimV1, FuzzyAlgorithm::SkimV2, FuzzyAlgorithm::Clangd] {
        let build = |query: &str, case: CaseMatching| {
            FuzzyEngine::builder().algorithm(algorithm).case(case).query(query).build()
        };
        let lower = Candidate::new("foo bar".to_string());
        let upper = Candidate::new("FOO bar".to_string());
        assert!(build("Foo", CaseMatching::Respect).match_item(&lower, 0).is_none());
        assert!(build("Foo", CaseMatching::Smart).match_item(&lower, 0).is_none());
        assert!(build("foo", CaseMatching::Respect).match_item(&upper, 0).is_none());
        let found = build("Foo", CaseMatching::Ignore).match_item(&lower, 0).unwrap();
        assert_eq!(found.matched, vec![0, 1, 2]);
        let found = build("foo", CaseMatching::Smart).match_item(&upper, 0).unwrap();
        assert_eq!(found.matched, vec![0, 1, 2]);
        let found = build("foo", CaseMatching::Respect).match_item(&lower, 0).unwrap();
        assert_eq!(found.matched, vec![0, 1, 2]);
        let exact = Candidate::new("Foo bar".to_string());
        let found = build("Foo", CaseMatching::Respect).match_item(&exact, 0).unwrap();
        assert_eq!(found.matched, vec![0, 1, 2]);
    }
}

#[test]
fn an_answer_is_held_to_the_case_of_the_pattern() {
    let kept = hold_to_case("fooFoo", "Foo", Some((7, vec![3, 4, 5])));
    assert_eq!(kept, Some((7, vec![3, 4, 5])));
    let kept = hold_to_case("FooFoo", "Foo", Some((7, vec![3, 4, 5])));
    assert_eq!(kept, Some((7, vec![3, 4, 5])));
    assert_eq!(hold_to_case("fooFoo", "Foo", None), None);
    assert_eq!(hold_to_case("foo", "Foo", None), None);
    assert_eq!(hold_to_case("äÖ", "Ö", Some((1, vec![1]))), Some((1, vec![1])));
    assert_eq!(hold_to_case("abc", "", Some((0, vec![]))), Some((0, vec![])));
}

#[test]
fn positions_on_letters_in_another_case_give_way_to_the_leftmost_in_the_right_case() {
    let leftmost = Some((7, vec![3, 4, 5]));
    assert_eq!(hold_to_case("fooFoo", "Foo", Some((7, vec![0, 1, 2]))), leftmost);
    assert_eq!(hold_to_case("fooFoo", "Foo", Some((7, vec![3, 4, 2]))), leftmost);
    assert_eq!(hold_to_case("fooFoo", "Foo", Some((7, vec![3, 4, 4]))), leftmost);
    assert_eq!(hold_to_case("fooFoo", "Foo", Some((7, vec![3, 4]))), leftmost);
    assert_eq!(hold_to_case("fooFoo", "Foo", Some((7, vec![3, 4, 5, 5]))), leftmost);
    assert_eq!(hold_to_case("fooFoo", "Foo", Some((7, vec![3, 4, 6]))), leftmost);
    assert_eq!(hold_to_case("äÖÖ", "Ö", Some((1, vec![0]))), Some((1, vec![1])));
    assert_eq!(hold_to_case("FooFoo", "Foo", Some((7, vec![0, 4, 2]))), Some((7, vec![0, 1, 2])));
}

#[test]
fn without_the_pattern_in_its_own_case_there_is_no_match() {
    assert_eq!(hold_to_case("foo bar", "Foo", Some((7, vec![0, 1, 2]))), None);
    assert_eq!(hold_to_case("FOO", "foo", Some((7, vec![0, 1, 2]))), None);
    assert_eq!(hold_to_case("oFo", "Foo", Some((7, vec![1, 2, 0]))), None);
    assert_eq!(hold_to_case("", "a", Some((7, vec![0]))), None);
}

#[test]
fn the_leftmost_places_of_a_pattern() {
    let chars = |s: &str| s.chars().collect::<Vec<char>>();
    assert_eq!(leftmost_places(&chars("fooFoo"), &chars("Foo")), Some(vec![3, 4, 5]));
    assert_eq!(leftmost_places(&chars("axbxcabc"), &chars("abc")), Some(vec![0, 2, 4]));
    assert_eq!(leftmost_places(&chars("aab"), &chars("ab")), Some(vec![0, 2]));
    assert_eq!(leftmost_places(&chars("abc"), &chars("")), Some(vec![]));
    assert_eq!(leftmost_places(&chars(""), &chars("")), Some(vec![]));
    assert_eq!(leftmost_places(&chars(""), &chars("a")), None);
    assert_eq!(leftmost_places(&chars("cba"), &chars("abc")), None);
    assert_eq!(leftmost_places(&chars("ab"), &chars("abc")), None);
    assert_eq!(leftmost_places(&chars("ABC"), &chars("abc")), None);
}

#[test]
fn the_first_skim_algorithm_finds_the_pattern_in_its_own_case() {
    for (case, query) in [(CaseMatching::Respect, "Foo"), (CaseMatching::Smart, "Foo")] {
        let e = FuzzyEngine::builder().algorithm(FuzzyAlgorithm::SkimV1).case(case).query(query).build();
        let found = e.match_item(&Candidate::new("fooFoo".to_string()), 0).unwrap();
        assert_eq!(found.matched, vec![3, 4, 5]);
        assert!(e.match_item(&Candidate::new("foofoo".to_string()), 0).is_none());
    }
    let e = FuzzyEngine::builder()
        .algorithm(FuzzyAlgorithm::SkimV1)
        .case(CaseMatching::Ignore)
        .query("Foo")
        .build();
    let found = e.match_item(&Candidate::new("fooFoo".to_string()), 0).unwrap();
    assert_eq!(found.matched, vec![0, 1, 2]);
}

#[test]
fn the_algorithms_agree_on_what_matches() {
    let choices = ["fooFoo", "foo bar", "Foo", "oFo", "a_B_c", "ABC", "abc", "xAxBxC", "äB"];
    let patterns = ["Foo", "foo", "abc", "ABC", "aBc", "Bc", "äb", "f"];
    for case in [CaseMatching::Respect, CaseMatching::Ignore, CaseMatching::Smart] {
        for choice in choices {
            for pattern in patterns {
                let v1 = fuzzy_match_with(FuzzyAlgorithm::SkimV1, case, BYTES_1M, choice, pattern);
                let v2 = fuzzy_match_with(FuzzyAlgorithm::SkimV2, case, BYTES_1M, choice, pattern);
                let cl = fuzzy_match_with(FuzzyAlgorithm::Clangd, case, BYTES_1M, choice, pattern);
                assert_eq!(v1.is_some(), v2.is_some(), "{:?} {:?} {:?}", case, choice, pattern);
                assert_eq!(cl.is_some(), v2.is_some(), "{:?} {:?} {:?}", case, choice, pattern);
            }
        }
    }
}

#[test]
fn the_first_skim_algorithm_keeps_its_score_where_case_counts() {
    let found = fuzzy_match_with(FuzzyAlgorithm::SkimV1, CaseMatching::Respect, BYTES_1M, "abc", "abc");
    assert_eq!(found, Some((52, vec![0, 1, 2])));
    let found = fuzzy_match_with(FuzzyAlgorithm::SkimV1, CaseMatching::Ignore, BYTES_1M, "ABC", "abc");
    assert_eq!(found.unwrap().1, vec![0, 1, 2]);
    let found = fuzzy_match_with(FuzzyAlgorithm::SkimV1, CaseMatching::Respect, BYTES_1M, "ABC", "abc");
    assert_eq!(found, None);
}

#[test]
fn the_structural_algorithm_is_not_asked_beyond_its_reach() {
    let blanks = 67_108_864 - 8;
    let mut choice = " ".repeat(blanks - 1);
    choice.push('a');
    let found = fuzzy_match_with(FuzzyAlgorithm::Clangd, CaseMatching::Ignore, BYTES_1M, &choice, "a");
    assert_eq!(found, None);
    let long = "a".repeat(8_388_608);
    let found = fuzzy_match_with(FuzzyAlgorithm::Clangd, CaseMatching::Respect, usize::MAX, &long, &long);
    assert_eq!(found, None);
    let found = fuzzy_match_with(FuzzyAlgorithm::Clangd, CaseMatching::Ignore, BYTES_1M, "   a", "a");
    assert_eq!(found.unwrap().1, vec![3]);
}

#[test]
fn a_capital_letter_beyond_ascii_does_not_make_the_case_count() {
    let e = FuzzyEngine::builder().query("äb").case(CaseMatching::Smart).build();
    assert!(e.match_item(&Candidate::new("äB".to_string()), 0).is_some());
    let e = FuzzyEngine::builder().query("Äb").case(CaseMatching::Smart).build();
    assert!(e.match_item(&Candidate::new("ÄB".to_string()), 0).is_some());
}

#[test]
fn an_attempt_does_not_depend_on_earlier_attempts() {
    let e = engine("aaa");
    let item = Candidate::new("xaaxaa".to_string());
    let first = e.match_item(&item, 0).unwrap();
    for primer in [" a a a a a a a", "a.a.a.a.a.a.a.a", "/a/a/a/a/a/a"] {
        let _ = e.match_item(&Candidate::new(primer.to_string()), 1);
        let again = e.match_item(&item, 0).unwrap();
        assert_eq!(again.rank.score, 47);
        assert_eq!(again.matched, vec![2, 4, 5]);
    }
    assert_eq!(first.rank.score, 47);
    assert_eq!(first.matched, vec![2, 4, 5]);
}

#[test]
fn the_smart_mode_is_the_smart_mode_of_the_matchers() {
    let choices = ["foo bar", "Foo Bar", "FOO BAR", "fOo", "äB", "ÄB", "a_b-C", ""];
    let patterns = ["foo", "Foo", "fb", "FB", "äb", "Äb", "abc", "abC", "f"];
    for choice in choices {
        for pattern in patterns {
            if choice.is_empty() {
                continue;
            }
            let ours = fuzzy_match_with(FuzzyAlgorithm::SkimV2, CaseMatching::Smart, BYTES_1M, choice, pattern);
            let theirs = SkimMatcherV2::default().element_limit(BYTES_1M).smart_case().fuzzy_indices(choice, pattern);
            assert_eq!(ours, theirs, "{:?} {:?}", choice, pattern);
            let ours = fuzzy_match_with(FuzzyAlgorithm::Clangd, CaseMatching::Smart, BYTES_1M, choice, pattern);
            let theirs = ClangdMatcher::default().smart_case().fuzzy_indices(choice, pattern);
            assert_eq!(ours, theirs, "{:?} {:?}", choice, pattern);
        }
    }
}

fn texts_up_to(letters: &[char], longest: usize) -> Vec<String> {
    let mut all = vec![String::new()];
    let mut last = vec![String::new()];
    for _ in 0..longest {
        let mut next = Vec::new();
        for text in last.iter() {
            for letter in letters {
                let mut longer = text.clone();
                longer.push(*letter);
                next.push(longer);
            }
        }
        all.extend(next.iter().cloned());
        last = next;
    }
    all
}

fn stands_in_order(choice: &str, pattern: &str, respect_case: bool) -> bool {
    let mut wanted = pattern.chars().peekable();
    for c in choice.chars() {
        match wanted.peek() {
            Some(p) => {
                if (respect_case && c == *p) || (!respect_case && c.eq_ignore_ascii_case(p)) {
                    wanted.next();
                }
            }
            None => break,
        }
    }
    wanted.peek().is_none()
}

#[test]
fn a_match_is_reported_exactly_where_the_pattern_stands_in_order() {
    let letters = ['a', 'A', 'b', ' '];
    let choices = texts_up_to(&letters, 4);
    let patterns = texts_up_to(&letters, 3);
    for algorithm in [FuzzyAlgorithm::SkimV1, FuzzyAlgorithm::SkimV2, FuzzyAlgorithm::Clangd] {
        for case in [CaseMatching::Respect, CaseMatching::Ignore] {
            let respect = case == CaseMatching::Respect;
            for choice in choices.iter() {
                for pattern in patterns.iter() {
                    let found = fuzzy_match_with(algorithm, case, BYTES_1M, choice, pattern);
                    let expected = stands_in_order(choice, pattern, respect);
                    assert_eq!(found.is_some(), expected, "{:?} {:?} {:?} {:?}", algorithm, case, choice, pattern);
                    if let Some((_, at)) = found {
                        assert!(at.iter().all(|i| *i < choice.chars().count()));
                        if respect {
                            let text: Vec<char> = choice.chars().collect();
                            let shown: Vec<char> = at.iter().map(|i| text[*i]).collect();
                            assert_eq!(shown, pattern.chars().collect::<Vec<char>>());
                        }
                    }
                }
            }
        }
    }
}
