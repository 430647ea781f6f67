use fuzzy_finder::ranked::MatchedItem;
use fuzzy_finder::ranked::RankedResultSet;

fn item(index: usize, score: i64, text: &str, generation: u64) -> MatchedItem {
    MatchedItem {
        index,
        score,
        positions: Vec::new(),
        generation,
        text: text.chars().collect(),
    }
}

fn texts(set: &RankedResultSet) -> Vec<String> {
    let mut r = Vec::new();
    for i in 0..set.len() {
        r.push(set.get(i).text.iter().collect());
    }
    r
}

#[test]
fn orders_by_descending_score() {
    let mut set = RankedResultSet::new();
    set.insert(item(0, 3, "ccc", 0));
    set.insert(item(1, 7, "aaa", 0));
    set.insert(item(2, 5, "bbb", 0));
    assert_eq!(texts(&set), vec!["aaa", "bbb", "ccc"]);
    for i in 1..set.len() {
        assert!(set.get(i - 1).score >= set.get(i).score);
    }
}

#[test]
fn equal_scores_break_by_shorter_text() {
    let mut set = RankedResultSet::new();
    set.insert(item(0, 7, "application", 0));
    set.insert(item(1, 7, "apple", 0));
    assert_eq!(texts(&set), vec!["apple", "application"]);
}

#[test]
fn equal_lengths_break_lexically() {
    let mut set = RankedResultSet::new();
    set.insert(item(0, 4, "beta", 0));
    set.insert(item(1, 4, "alfa", 0));
    set.insert(item(2, 4, "gama", 0));
    assert_eq!(texts(&set), vec!["alfa", "beta", "gama"]);
}

#[test]
fn equal_texts_break_by_insertion_order() {
    let mut set = RankedResultSet::new();
    set.insert(item(9, 4, "same", 0));
    set.insert(item(2, 4, "same", 0));
    set.insert(item(5, 4, "same", 0));
    assert_eq!(set.get(0).index, 2);
    assert_eq!(set.get(1).index, 5);
    assert_eq!(set.get(2).index, 9);
}

#[test]
fn order_holds_after_clears_and_reinserts() {
    let mut set = RankedResultSet::new();
    set.insert(item(0, 1, "x", 0));
    set.insert(item(1, 9, "y", 0));
    set.clear();
    assert_eq!(set.len(), 0);
    set.insert(item(2, 2, "bb", 1));
    set.insert(item(3, 2, "a", 1));
    set.insert(item(4, 6, "zzz", 1));
    assert_eq!(texts(&set), vec!["zzz", "a", "bb"]);
}
