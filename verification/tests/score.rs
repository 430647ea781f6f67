use fuzzy_finder::score::fuzzy_match;

fn chars(s: &str) -> Vec<char> {
    s.chars().collect()
}

#[test]
fn subsequence_queries_match() {
    // "ape" is a subsequence of "apple"
    let r = fuzzy_match(&chars("ape"), &chars("apple"));
    assert!(r.is_some());
    // every query is a subsequence of itself
    assert!(fuzzy_match(&chars("apple"), &chars("apple")).is_some());
    // the empty query matches everything
    let r = fuzzy_match(&chars(""), &chars("banana"));
    assert_eq!(r.map(|(s, p)| (s, p.len())), Some((0, 0)));
}

#[test]
fn non_subsequence_queries_fail() {
    assert!(fuzzy_match(&chars("ap"), &chars("banana")).is_none());
    // order matters: "pa" is not an ordered subsequence of "ap"
    assert!(fuzzy_match(&chars("pa"), &chars("ap")).is_none());
    // a query longer than the text cannot match
    assert!(fuzzy_match(&chars("apple"), &chars("app")).is_none());
}

#[test]
fn leading_contiguous_match_scores_exactly() {
    // "ap" on "apple": 'a' at a word boundary (+2) and matched (+1),
    // 'p' contiguous (+3) and matched (+1): score 7, positions [0, 1]
    let (score, positions) = fuzzy_match(&chars("ap"), &chars("apple")).unwrap();
    assert_eq!(score, 7);
    assert_eq!(positions, vec![0, 1]);
}

#[test]
fn gap_penalty_lowers_score() {
    // "ab" on "ab": (1+2) + (1+3) = 7
    let (tight, _) = fuzzy_match(&chars("ab"), &chars("ab")).unwrap();
    assert_eq!(tight, 7);
    // "ab" on "axb": the middle 'x' breaks contiguity and costs one:
    // (1+2) + (1-1) = 3
    let (gapped, positions) = fuzzy_match(&chars("ab"), &chars("axb")).unwrap();
    assert_eq!(gapped, 3);
    assert_eq!(positions, vec![0, 2]);
    assert!(gapped < tight);
}

#[test]
fn word_boundary_bonus() {
    // 'b' after a space starts a word: 1 + 2
    let (after_space, _) = fuzzy_match(&chars("b"), &chars("a b")).unwrap();
    assert_eq!(after_space, 3);
    // 'b' inside a word gets no bonus
    let (inside, _) = fuzzy_match(&chars("b"), &chars("ab")).unwrap();
    assert_eq!(inside, 1);
}

#[test]
fn picks_the_best_alignment_not_the_first() {
    // "ab" on "a_b ab": the trailing "ab" is contiguous at a word
    // boundary, better than matching the leading 'a' with a long gap
    let (score, positions) = fuzzy_match(&chars("ab"), &chars("a_b ab")).unwrap();
    assert_eq!(positions, vec![4, 5]);
    assert_eq!(score, 7);
}

#[test]
fn smart_case_insensitive_without_uppercase() {
    // no uppercase in the query: case-insensitive
    assert!(fuzzy_match(&chars("app"), &chars("Application")).is_some());
    assert!(fuzzy_match(&chars("app"), &chars("APPLE")).is_some());
}

#[test]
fn smart_case_sensitive_with_uppercase() {
    // an uppercase letter in the query forces case-sensitive matching
    assert!(fuzzy_match(&chars("App"), &chars("apple")).is_none());
    assert!(fuzzy_match(&chars("App"), &chars("Application")).is_some());
}

#[test]
fn unicode_text_is_valid_input() {
    let r = fuzzy_match(&chars("na"), &chars("bañana"));
    assert!(r.is_some());
    assert!(fuzzy_match(&chars("ñ"), &chars("bañana")).is_some());
    assert!(fuzzy_match(&chars("ñ"), &chars("banana")).is_none());
}
