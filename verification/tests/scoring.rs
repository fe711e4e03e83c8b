use fuzzy_picker::rank::{rank_matches, Match, MatchSet};
use fuzzy_picker::score::{
    match_text, score_positions, separator, ADJACENT_BONUS, BOUNDARY_BONUS, MATCH_POINTS,
    MAX_LENGTH_PENALTY,
};
use fuzzy_picker::text::{chars_of, find_positions};

fn chars(s: &str) -> Vec<char> {
    s.chars().collect()
}

fn scored(source: usize, candidate: usize, score: u64) -> Match {
    Match { source, candidate, score, positions: vec![candidate] }
}

fn places(ms: &[Match]) -> Vec<(usize, usize, u64)> {
    ms.iter().map(|m| (m.source, m.candidate, m.score)).collect()
}

#[test]
fn chars_of_keeps_every_character() {
    assert_eq!(chars_of(""), Vec::<char>::new());
    assert_eq!(chars_of("abc"), vec!['a', 'b', 'c']);
    assert_eq!(chars_of("é…z"), vec!['é', '…', 'z']);
}

#[test]
fn find_positions_takes_the_earliest_places() {
    assert_eq!(find_positions(&chars("ab"), &chars("aabb")), Some(vec![0, 2]));
    assert_eq!(find_positions(&chars("aba"), &chars("xaxbxa")), Some(vec![1, 3, 5]));
    assert_eq!(find_positions(&chars("abc"), &chars("abc")), Some(vec![0, 1, 2]));
    assert_eq!(find_positions(&chars(""), &chars("abc")), Some(vec![]));
    assert_eq!(find_positions(&chars(""), &chars("")), Some(vec![]));
}

#[test]
fn find_positions_wants_the_order_and_every_character() {
    assert_eq!(find_positions(&chars("ba"), &chars("ab")), None);
    assert_eq!(find_positions(&chars("aa"), &chars("a")), None);
    assert_eq!(find_positions(&chars("a"), &chars("")), None);
    assert_eq!(find_positions(&chars("abcd"), &chars("abc")), None);
    assert_eq!(find_positions(&chars("A"), &chars("a")), None);
}

#[test]
fn the_separators_are_six() {
    for c in ['/', '\\', '_', '-', '.', ' '] {
        assert!(separator(c));
    }
    for c in ['a', 'Z', '0', ':', ',', '\n', '\t'] {
        assert!(!separator(c));
    }
}

#[test]
fn the_rewards_are_as_documented() {
    assert_eq!(MATCH_POINTS, 16);
    assert_eq!(ADJACENT_BONUS, 8);
    assert_eq!(BOUNDARY_BONUS, 8);
    assert_eq!(MAX_LENGTH_PENALTY, 15);
}

#[test]
fn a_lone_character_in_the_middle_earns_the_match_points() {
    // 16, less one unmatched character on each side.
    assert_eq!(match_text(&chars("b"), &chars("abc")), Some((14, vec![1])));
}

#[test]
fn the_start_of_the_text_is_a_word_start() {
    assert_eq!(match_text(&chars("a"), &chars("a")), Some((24, vec![0])));
}

#[test]
fn a_character_behind_a_separator_is_a_word_start() {
    // 16 + 8, less two unmatched characters.
    assert_eq!(match_text(&chars("b"), &chars("a/b")), Some((22, vec![2])));
    assert_eq!(match_text(&chars("b"), &chars("a_b")), Some((22, vec![2])));
    assert_eq!(match_text(&chars("b"), &chars("axb")), Some((14, vec![2])));
}

#[test]
fn adjacent_characters_earn_the_bonus() {
    // x a b: 16, then 16 + 8; one unmatched.
    assert_eq!(match_text(&chars("ab"), &chars("xab")), Some((39, vec![1, 2])));
    // x a x b: 16 and 16; two unmatched.
    assert_eq!(match_text(&chars("ab"), &chars("xaxb")), Some((30, vec![1, 3])));
}

#[test]
fn a_separator_in_the_query_earns_both_bonuses_behind_it() {
    // a: 16 + 8; /: 16 + 8; b: 16 + 8 + 8.
    assert_eq!(match_text(&chars("a/b"), &chars("a/b")), Some((80, vec![0, 1, 2])));
}

#[test]
fn the_length_penalty_stops_at_fifteen() {
    let long = format!("a{}", "x".repeat(14));
    assert_eq!(match_text(&chars("a"), &chars(&long)), Some((24 - 14, vec![0])));
    let longer = format!("a{}", "x".repeat(15));
    assert_eq!(match_text(&chars("a"), &chars(&longer)), Some((24 - 15, vec![0])));
    let longest = format!("a{}", "x".repeat(500));
    assert_eq!(match_text(&chars("a"), &chars(&longest)), Some((24 - 15, vec![0])));
}

#[test]
fn the_empty_query_and_a_missing_character_match_nothing() {
    assert_eq!(match_text(&chars(""), &chars("abc")), None);
    assert_eq!(match_text(&chars("abd"), &chars("abc")), None);
    assert_eq!(match_text(&chars("a"), &chars("")), None);
}

#[test]
fn score_positions_scores_any_placing() {
    assert_eq!(score_positions(&chars("abc"), &vec![]), 0);
    assert_eq!(score_positions(&chars("abc"), &vec![0, 2]), 24 + 16 - 1);
    assert_eq!(score_positions(&chars("a-c"), &vec![0, 2]), 24 + 24 - 1);
}

#[test]
fn a_text_that_starts_with_the_query_scores_highest() {
    let query = chars("ap");
    let (best, _) = match_text(&query, &chars("apple")).unwrap();
    for other in ["grape", "a-p-x", "xapxx", "a_ple", "apric", "maple", "axxxp", "apricot"] {
        let (score, _) = match_text(&query, &chars(other)).unwrap();
        assert!(best >= score);
    }
}

#[test]
fn rank_matches_sorts_by_score_and_keeps_ties_in_order() {
    let ms = vec![scored(0, 0, 5), scored(0, 1, 9), scored(0, 2, 5), scored(1, 0, 9), scored(1, 1, 1)];
    let ranked = rank_matches(ms, 10);
    assert_eq!(places(&ranked), vec![(0, 1, 9), (1, 0, 9), (0, 0, 5), (0, 2, 5), (1, 1, 1)]);
    assert_eq!(ranked[0].positions, vec![1]);
}

#[test]
fn rank_matches_cuts_at_the_cap() {
    let ms = vec![scored(0, 0, 5), scored(0, 1, 9), scored(0, 2, 5), scored(1, 0, 9), scored(1, 1, 1)];
    assert_eq!(places(&rank_matches(ms.clone(), 3)), vec![(0, 1, 9), (1, 0, 9), (0, 0, 5)]);
    assert_eq!(places(&rank_matches(ms.clone(), 1)), vec![(0, 1, 9)]);
    assert!(rank_matches(ms, 0).is_empty());
    assert!(rank_matches(Vec::new(), 5).is_empty());
}

#[test]
fn a_match_set_keeps_the_best_within_its_cap() {
    let mut set = MatchSet::new(2);
    assert_eq!(set.len(), 0);
    set.insert(scored(0, 0, 3));
    set.insert(scored(0, 1, 7));
    assert_eq!(set.len(), 2);
    set.insert(scored(0, 2, 5));
    assert_eq!(set.len(), 2);
    set.insert(scored(0, 3, 1));
    set.insert(scored(0, 4, 7));
    assert_eq!(places(&set.into_matches()), vec![(0, 1, 7), (0, 4, 7)]);
}

#[test]
fn a_match_set_with_no_room_stays_empty() {
    let mut set = MatchSet::new(0);
    set.insert(scored(0, 0, 3));
    assert_eq!(set.len(), 0);
    assert!(set.into_matches().is_empty());
}

#[test]
fn a_cloned_match_is_the_same_match() {
    let m = Match { source: 2, candidate: 3, score: 40, positions: vec![1, 4, 5] };
    let c = m.clone();
    assert_eq!((c.source, c.candidate, c.score), (2, 3, 40));
    assert_eq!(c.positions, vec![1, 4, 5]);
}
