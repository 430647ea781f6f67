use fuzzy_finder::model::Model;
use fuzzy_finder::pool::CandidatePool;
use fuzzy_finder::ranked::MatchedItem;

fn chars(s: &str) -> Vec<char> {
    s.chars().collect()
}

fn query_string(m: &Model) -> String {
    m.query_chars().iter().collect()
}

fn item(index: usize, score: i64, text: &str, generation: u64) -> MatchedItem {
    MatchedItem {
        index,
        score,
        positions: Vec::new(),
        generation,
        text: text.chars().collect(),
    }
}

#[test]
fn query_editing_bumps_generation_exactly_on_change() {
    let mut m = Model::new();
    assert_eq!(m.current_generation(), 0);
    m.act_add_char('a');
    m.act_add_char('b');
    assert_eq!(query_string(&m), "ab");
    assert_eq!(m.current_generation(), 2);
    // deleting before the start changes nothing, so no bump
    m.act_beginning_of_line();
    let changed = m.act_backward_delete_char();
    assert!(!changed);
    assert_eq!(m.current_generation(), 2);
    m.act_end_of_line();
    let changed = m.act_backward_delete_char();
    assert!(changed);
    assert_eq!(query_string(&m), "a");
    assert_eq!(m.current_generation(), 3);
}

#[test]
fn characters_insert_at_the_cursor() {
    let mut m = Model::new();
    m.act_add_char('a');
    m.act_add_char('c');
    m.act_backward_char();
    m.act_add_char('b');
    assert_eq!(query_string(&m), "abc");
    // the cursor clamps at both ends
    m.act_forward_char();
    m.act_forward_char();
    m.act_add_char('d');
    assert_eq!(query_string(&m), "abcd");
    let changed = m.act_delete_char();
    assert!(!changed);
    m.act_backward_char();
    let changed = m.act_delete_char();
    assert!(changed);
    assert_eq!(query_string(&m), "abc");
}

#[test]
fn word_editing() {
    let mut m = Model::new();
    for c in "hello big world".chars() {
        m.act_add_char(c);
    }
    let changed = m.act_backward_kill_word();
    assert!(changed);
    assert_eq!(query_string(&m), "hello big ");
    m.act_backward_word();
    m.act_kill_word();
    // kill-word removes "big" but not the separator after it
    assert_eq!(query_string(&m), "hello  ");
    let changed = m.act_kill_line();
    assert!(changed);
    assert_eq!(query_string(&m), "hello ");
    m.act_beginning_of_line();
    m.act_forward_word();
    m.act_kill_line();
    assert_eq!(query_string(&m), "hello");
    m.act_line_discard();
    assert_eq!(query_string(&m), "");
}

#[test]
fn line_cursor_clamps_and_does_not_wrap() {
    let mut m = Model::new();
    m.clear_items(0);
    m.push_item(item(0, 3, "aa", 0));
    m.push_item(item(1, 2, "bb", 0));
    m.push_item(item(2, 1, "cc", 0));
    assert_eq!(m.highlighted_row(), 0);
    m.act_move_line_cursor(-5);
    assert_eq!(m.highlighted_row(), 0);
    m.act_move_line_cursor(2);
    assert_eq!(m.highlighted_row(), 2);
    m.act_move_line_cursor(10);
    assert_eq!(m.highlighted_row(), 2);
    m.act_move_line_cursor(-1);
    assert_eq!(m.highlighted_row(), 1);
}

#[test]
fn viewport_follows_the_highlighted_row() {
    let mut m = Model::new();
    m.resize(80, 2);
    for i in 0..5 {
        m.push_item(item(i, 5 - i as i64, "row", 0));
    }
    // the window starts at the top while the highlight fits in it
    assert_eq!(m.viewport_start(), 0);
    m.act_move_line_cursor(1);
    assert_eq!(m.viewport_start(), 0);
    // further movement scrolls just far enough to keep it visible
    m.act_move_line_cursor(1);
    assert_eq!(m.viewport_start(), 1);
    m.act_move_line_cursor(10);
    assert_eq!(m.highlighted_row(), 4);
    assert_eq!(m.viewport_start(), 3);
}

#[test]
fn stale_generation_matches_are_dropped() {
    let mut m = Model::new();
    // a pass for generation 0 delivers two matches
    m.push_item(item(0, 5, "old0", 0));
    m.push_item(item(1, 4, "old1", 0));
    assert_eq!(m.num_ranked(), 2);
    // query change: generation 1 starts; its start-of-pass is
    // acknowledged by clearing the displayed matches
    m.clear_items(1);
    assert_eq!(m.num_ranked(), 0);
    // late deliveries of the superseded generation are discarded
    m.push_item(item(2, 9, "stale", 0));
    assert_eq!(m.num_ranked(), 0);
    // matches of the current generation are displayed
    m.push_item(item(3, 1, "fresh", 1));
    assert_eq!(m.num_ranked(), 1);
    for i in 0..m.num_ranked() {
        assert_eq!(m.ranked_item(i).generation, 1);
    }
}

#[test]
fn selection_survives_rerank_and_toggles() {
    let mut m = Model::new();
    m.push_item(item(7, 5, "seven", 0));
    m.push_item(item(3, 4, "three", 0));
    // select the highlighted (best) candidate: pool index 7
    m.act_toggle_select(None);
    assert_eq!(m.get_num_selected(), 1);
    // a full re-rank for a new generation changes list positions
    m.clear_items(1);
    m.push_item(item(3, 9, "three", 1));
    m.push_item(item(7, 1, "seven", 1));
    // the selection is untouched by the re-rank
    assert_eq!(m.get_num_selected(), 1);
    // toggling the same candidate again deselects it: candidate 7 is
    // now the second row
    m.act_move_line_cursor(1);
    assert_eq!(m.ranked_item(m.highlighted_row()).index, 7);
    m.act_toggle_select(None);
    assert_eq!(m.get_num_selected(), 0);
    // forced select sets selection regardless of prior state
    m.act_toggle_select(Some(true));
    assert_eq!(m.get_num_selected(), 1);
    m.act_toggle_select(Some(true));
    assert_eq!(m.get_num_selected(), 1);
    m.act_toggle_select(Some(false));
    assert_eq!(m.get_num_selected(), 0);
}

#[test]
fn accept_with_no_selection_emits_highlighted() {
    let mut pool = CandidatePool::new();
    pool.append(chars("alpha"));
    pool.append(chars("beta"));
    pool.append(chars("gamma"));
    let mut m = Model::new();
    m.push_item(item(0, 3, "alpha", 0));
    m.push_item(item(1, 2, "beta", 0));
    m.push_item(item(2, 1, "gamma", 0));
    m.act_move_line_cursor(1);
    assert_eq!(m.get_num_selected(), 0);
    m.on_accept();
    let out = m.output(&pool);
    assert_eq!(out.len(), 1);
    let line: String = out[0].iter().collect();
    assert_eq!(line, "beta");
}

#[test]
fn accept_emits_selection_in_selection_order() {
    let mut pool = CandidatePool::new();
    pool.append(chars("alpha"));
    pool.append(chars("beta"));
    pool.append(chars("gamma"));
    let mut m = Model::new();
    m.push_item(item(0, 3, "alpha", 0));
    m.push_item(item(1, 2, "beta", 0));
    m.push_item(item(2, 1, "gamma", 0));
    // select gamma first, then alpha
    m.act_move_line_cursor(2);
    m.act_toggle_select(None);
    m.act_move_line_cursor(-2);
    m.act_toggle_select(None);
    m.on_accept();
    let out = m.output(&pool);
    let lines: Vec<String> = out.iter().map(|v| v.iter().collect()).collect();
    assert_eq!(lines, vec!["gamma".to_string(), "alpha".to_string()]);
}
