use fuzzy_picker::cancel::CancellationToken;
use fuzzy_picker::rank::Match;
use fuzzy_picker::search::{search, search_to_end, MAX_RESULTS};
use fuzzy_picker::sources::{search_sources, search_sources_to_end};

fn texts(items: &[&str]) -> Vec<String> {
    items.iter().map(|s| s.to_string()).collect()
}

fn candidates_of(found: &[Match]) -> Vec<usize> {
    found.iter().map(|m| m.candidate).collect()
}

#[test]
fn prefix_query_keeps_both_matches_and_drops_the_rest() {
    let candidates = texts(&["apple", "apricot", "banana"]);
    let found = search("ap", &candidates, MAX_RESULTS, &CancellationToken::new());
    assert_eq!(candidates_of(&found), vec![0, 1]);
    assert!(found.iter().all(|m| m.score > 0));
    assert_eq!(found[0].positions, vec![0, 1]);
    assert_eq!(found[1].positions, vec![0, 1]);
    // 16 + 8 for the word start, 16 + 8 for the adjacent character,
    // less the unmatched characters: 3 of "apple", 5 of "apricot".
    assert_eq!(found[0].score, 45);
    assert_eq!(found[1].score, 43);
}

#[test]
fn no_candidates_give_an_empty_set() {
    let none: Vec<String> = Vec::new();
    let token = CancellationToken::new();
    assert!(search("", &none, MAX_RESULTS, &token).is_empty());
    assert!(search("anything", &none, MAX_RESULTS, &token).is_empty());
    assert!(search_to_end("x", &none, MAX_RESULTS).is_empty());
}

#[test]
fn one_source_with_a_match_and_one_without() {
    let sources = vec![texts(&["foo"]), texts(&[])];
    let found = search_sources("foo", &sources, MAX_RESULTS, &CancellationToken::new());
    assert_eq!(found.len(), 1);
    assert_eq!(found[0].source, 0);
    assert_eq!(found[0].candidate, 0);
    assert_eq!(found[0].positions, vec![0, 1, 2]);
    // 24 + 24 + 24, nothing unmatched.
    assert_eq!(found[0].score, 72);
}

#[test]
fn empty_query_browses_in_enumeration_order() {
    let candidates = texts(&["zeta", "alpha", "mid"]);
    let found = search("", &candidates, MAX_RESULTS, &CancellationToken::new());
    assert_eq!(candidates_of(&found), vec![0, 1, 2]);
    assert!(found.iter().all(|m| m.score == 0 && m.positions.is_empty()));
}

#[test]
fn empty_query_is_cut_at_the_cap() {
    let candidates: Vec<String> = (0..250).map(|i| format!("item{}", i)).collect();
    let found = search("", &candidates, MAX_RESULTS, &CancellationToken::new());
    assert_eq!(found.len(), 100);
    assert_eq!(candidates_of(&found), (0..100).collect::<Vec<usize>>());
}

#[test]
fn results_never_exceed_the_cap() {
    let candidates: Vec<String> = (0..250).map(|i| format!("item{}", i)).collect();
    let found = search("it", &candidates, MAX_RESULTS, &CancellationToken::new());
    assert_eq!(found.len(), 100);
    let found = search("it", &candidates, 7, &CancellationToken::new());
    assert_eq!(found.len(), 7);
    let found = search("it", &candidates, 0, &CancellationToken::new());
    assert!(found.is_empty());
}

#[test]
fn the_cap_keeps_the_best_not_the_first() {
    let candidates = texts(&["a_long_text_b", "xab", "ab"]);
    let found = search_to_end("ab", &candidates, 2);
    assert_eq!(candidates_of(&found), vec![2, 1]);
}

#[test]
fn every_match_holds_the_query_as_a_subsequence() {
    let candidates = texts(&["src/main.rs", "crates/ui/mod.rs", "README.md", "rs", "sr"]);
    let found = search_to_end("rs", &candidates, MAX_RESULTS);
    let mut seen = candidates_of(&found);
    seen.sort();
    assert_eq!(seen, vec![0, 1, 3]);
    for m in &found {
        let text: Vec<char> = candidates[m.candidate].chars().collect();
        let picked: String = m.positions.iter().map(|&p| text[p]).collect();
        assert_eq!(picked, "rs");
        assert!(m.positions.windows(2).all(|w| w[0] < w[1]));
    }
}

#[test]
fn scores_descend_and_ties_keep_candidate_order() {
    let candidates = texts(&["xab", "ab", "yab", "a-b", "ab"]);
    let found = search_to_end("ab", &candidates, MAX_RESULTS);
    assert_eq!(candidates_of(&found), vec![1, 4, 3, 0, 2]);
    assert!(found.windows(2).all(|w| w[0].score >= w[1].score));
    assert_eq!(found[0].score, found[1].score);
    assert_eq!(found[3].score, found[4].score);
}

#[test]
fn a_raised_token_stops_the_search_before_the_first_candidate() {
    let candidates = texts(&["apple", "apricot"]);
    let token = CancellationToken::new();
    token.raise();
    assert!(token.is_raised());
    assert!(search("ap", &candidates, MAX_RESULTS, &token).is_empty());
    let sources = vec![candidates.clone(), candidates.clone()];
    assert!(search_sources("ap", &sources, MAX_RESULTS, &token).is_empty());
}

#[test]
fn a_raised_token_does_not_stop_browsing() {
    let candidates = texts(&["apple", "apricot"]);
    let token = CancellationToken::new();
    token.raise();
    assert_eq!(search("", &candidates, MAX_RESULTS, &token).len(), 2);
}

#[test]
fn a_clone_of_the_token_sees_it_raised() {
    let token = CancellationToken::new();
    let other = token.clone();
    assert!(!other.is_raised());
    token.raise();
    assert!(other.is_raised());
}

#[test]
fn sources_are_ranked_together() {
    let sources = vec![texts(&["xfoo", "bar"]), texts(&[]), texts(&["foo", "f-o-o"])];
    let found = search_sources_to_end("foo", &sources, MAX_RESULTS);
    let places: Vec<(usize, usize)> = found.iter().map(|m| (m.source, m.candidate)).collect();
    assert_eq!(places, vec![(2, 0), (2, 1), (0, 0)]);
    let found = search_sources_to_end("foo", &sources, 1);
    assert_eq!(found.len(), 1);
    assert_eq!((found[0].source, found[0].candidate), (2, 0));
}

#[test]
fn sources_browse_source_after_source() {
    let sources = vec![texts(&["b", "a"]), texts(&[]), texts(&["c"])];
    let found = search_sources_to_end("", &sources, MAX_RESULTS);
    let places: Vec<(usize, usize)> = found.iter().map(|m| (m.source, m.candidate)).collect();
    assert_eq!(places, vec![(0, 0), (0, 1), (2, 0)]);
    let found = search_sources_to_end("", &sources, 2);
    assert_eq!(found.len(), 2);
}
