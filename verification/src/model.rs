//! The interaction state: query editing, viewport, selection, statistics.
//!
//! The model owns the query buffer and cursor, the highlighted row over
//! the ranked result set, the selection set, the process statistics and
//! the generation counter. Every operation that changes the query text
//! increments the generation counter; the caller then signals the
//! matcher to restart. The selection set is never mutated as a side
//! effect of re-ranking: only explicit toggles touch it.

use vstd::prelude::*;
use crate::pool::CandidatePool;
use crate::score::MAX_TEXT_LEN;
use crate::query::Query;
use crate::query::word_start_before;
use crate::query::word_end_after;
use crate::ranked::RankedResultSet;
use crate::ranked::MatchedItem;
use crate::ranked::sorted;
use crate::selection::SelectionSet;
use crate::selection::toggle_target;

verus! {

/// Where the highlighted row lands after moving by `delta`, clamped to
/// the result set's bounds without wrapping.
pub open spec fn move_row(cur: int, delta: int, len: int) -> int {
    if len == 0 {
        0
    } else if cur + delta < 0 {
        0
    } else if cur + delta > len - 1 {
        len - 1
    } else {
        cur + delta
    }
}

/// The interaction state.
pub struct Model {
    query: Query,
    generation: u64,
    display_generation: u64,
    ranked: RankedResultSet,
    selection: SelectionSet,
    line_cursor: usize,
    width: usize,
    height: usize,
    matched_stat: u64,
    total_stat: u64,
    processed_stat: u64,
}

impl Model {
    /// The query text.
    pub closed spec fn query_text(self) -> Seq<char> {
        self.query.text()
    }

    /// The query cursor offset.
    pub closed spec fn query_at(self) -> int {
        self.query.at()
    }

    /// The generation counter: bumped on every query change.
    pub closed spec fn gen_id(self) -> u64 {
        self.generation
    }

    /// The generation whose matches are currently displayed.
    pub closed spec fn display_gen(self) -> u64 {
        self.display_generation
    }

    /// The displayed ranked entries, best first.
    pub closed spec fn ranked_seq(self) -> Seq<MatchedItem> {
        self.ranked.seq()
    }

    /// The selected candidate indices, in selection order.
    pub closed spec fn selection_seq(self) -> Seq<usize> {
        self.selection.seq()
    }

    /// The highlighted row.
    pub closed spec fn highlighted(self) -> int {
        self.line_cursor as int
    }

    /// The model's invariant: components well-formed, the highlighted
    /// row within bounds, and every displayed match tagged with the
    /// displayed generation.
    pub closed spec fn wf(self) -> bool {
        &&& self.query.wf()
        &&& self.ranked.wf()
        &&& self.selection.wf()
        &&& if self.ranked.seq().len() == 0 {
            self.line_cursor == 0
        } else {
            (self.line_cursor as int) < self.ranked.seq().len()
        }
        &&& forall|i: int|
            0 <= i < self.ranked.seq().len() ==> (#[trigger] self.ranked.seq()[i]).generation
                == self.display_generation
    }

    /// A well-formed model's displayed matches all carry the displayed
    /// generation.
    pub proof fn lemma_wf_display(self)
        requires
            self.wf(),
        ensures
            self.query_text().len() <= MAX_TEXT_LEN,
            0 <= self.query_at() <= self.query_text().len(),
            sorted(self.ranked_seq()),
            self.ranked_seq().len() == 0 ==> self.highlighted() == 0,
            self.ranked_seq().len() > 0 ==> 0 <= self.highlighted() < self.ranked_seq().len(),
            forall|i: int|
                0 <= i < self.ranked_seq().len() ==> (#[trigger] self.ranked_seq()[i]).generation
                    == self.display_gen(),
    {
    }

    /// Law (generation isolation): once the displayed generation has
    /// moved on, no match of any other generation is displayed.
    pub proof fn lemma_generation_isolation(self, g: u64)
        requires
            self.wf(),
            g != self.display_gen(),
        ensures
            forall|i: int|
                0 <= i < self.ranked_seq().len() ==> (#[trigger] self.ranked_seq()[i]).generation
                    != g,
    {
    }

    /// A fresh model: empty query, nothing displayed, nothing selected.
    pub fn new() -> (r: Model)
        ensures
            r.wf(),
            r.query_text() =~= Seq::<char>::empty(),
            r.query_at() == 0,
            r.gen_id() == 0,
            r.display_gen() == 0,
            r.ranked_seq() =~= Seq::<MatchedItem>::empty(),
            r.selection_seq() =~= Seq::<usize>::empty(),
            r.highlighted() == 0,
    {
        Model {
            query: Query::new(),
            generation: 0,
            display_generation: 0,
            ranked: RankedResultSet::new(),
            selection: SelectionSet::new(),
            line_cursor: 0,
            width: 0,
            height: 0,
            matched_stat: 0,
            total_stat: 0,
            processed_stat: 0,
        }
    }

    /// The query text, copied out (to hand to the matcher).
    pub fn query_chars(&self) -> (r: Vec<char>)
        ensures
            r@ == self.query_text(),
    {
        self.query.chars()
    }

    /// The current generation counter.
    pub fn current_generation(&self) -> (r: u64)
        ensures
            r == self.gen_id(),
    {
        self.generation
    }

    /// Number of displayed matches.
    pub fn num_ranked(&self) -> (r: usize)
        ensures
            r == self.ranked_seq().len(),
    {
        self.ranked.len()
    }

    /// The displayed match at rank `i`.
    pub fn ranked_item(&self, i: usize) -> (r: &MatchedItem)
        requires
            i < self.ranked_seq().len(),
        ensures
            *r == self.ranked_seq()[i as int],
    {
        self.ranked.get(i)
    }

    /// The highlighted row.
    pub fn highlighted_row(&self) -> (r: usize)
        ensures
            r == self.highlighted(),
    {
        self.line_cursor
    }

    /// The selected candidate index at selection-order position `i`.
    pub fn selected_index(&self, i: usize) -> (r: usize)
        requires
            i < self.selection_seq().len(),
        ensures
            r == self.selection_seq()[i as int],
    {
        self.selection.get(i)
    }

    /// Number of selected candidates.
    pub fn get_num_selected(&self) -> (r: usize)
        ensures
            r == self.selection_seq().len(),
    {
        self.selection.len()
    }

    /// Insert a character at the query cursor; this changes the query,
    /// so the generation counter is bumped.
    pub fn act_add_char(&mut self, c: char) -> (changed: bool)
        requires
            old(self).wf(),
            old(self).query_text().len() < MAX_TEXT_LEN,
            old(self).gen_id() < u64::MAX,
        ensures
            final(self).wf(),
            changed,
            final(self).query_text() =~= old(self).query_text().insert(old(self).query_at(), c),
            final(self).query_at() == old(self).query_at() + 1,
            final(self).gen_id() == old(self).gen_id() + 1,
            final(self).unchanged_but_query(*old(self)),
    {
        let changed = self.query.add_char(c);
        self.generation = self.generation + 1;
        changed
    }

    /// Everything except the query buffer and the generation counter is
    /// as in `other`.
    pub closed spec fn unchanged_but_query(self, other: Model) -> bool {
        &&& self.ranked == other.ranked
        &&& self.selection == other.selection
        &&& self.display_generation == other.display_generation
        &&& self.line_cursor == other.line_cursor
        &&& self.width == other.width
        &&& self.height == other.height
    }

    /// The ranked entries, the selection and the displayed generation
    /// are as in `other` (what query edits never touch).
    pub proof fn lemma_unchanged_but_query(self, other: Model)
        requires
            self.unchanged_but_query(other),
        ensures
            self.ranked_seq() == other.ranked_seq(),
            self.selection_seq() == other.selection_seq(),
            self.display_gen() == other.display_gen(),
            self.highlighted() == other.highlighted(),
    {
    }

    /// Delete the character before the query cursor; bumps the
    /// generation exactly when the text changed.
    pub fn act_backward_delete_char(&mut self) -> (changed: bool)
        requires
            old(self).wf(),
            old(self).gen_id() < u64::MAX,
        ensures
            final(self).wf(),
            changed == (old(self).query_at() > 0),
            old(self).query_at() > 0 ==> final(self).query_text() =~= old(
                self,
            ).query_text().remove(old(self).query_at() - 1) && final(self).query_at() == old(
                self,
            ).query_at() - 1,
            old(self).query_at() == 0 ==> final(self).query_text() == old(self).query_text(),
            final(self).gen_id() == old(self).gen_id() + (if changed {
                1u64
            } else {
                0u64
            }),
            final(self).unchanged_but_query(*old(self)),
    {
        let changed = self.query.backward_delete_char();
        if changed {
            self.generation = self.generation + 1;
        }
        changed
    }

    /// Delete the character at the query cursor.
    pub fn act_delete_char(&mut self) -> (changed: bool)
        requires
            old(self).wf(),
            old(self).gen_id() < u64::MAX,
        ensures
            final(self).wf(),
            changed == (old(self).query_at() < old(self).query_text().len()),
            changed ==> final(self).query_text() =~= old(self).query_text().remove(
                old(self).query_at(),
            ) && final(self).query_at() == old(self).query_at(),
            !changed ==> final(self).query_text() == old(self).query_text(),
            final(self).gen_id() == old(self).gen_id() + (if changed {
                1u64
            } else {
                0u64
            }),
            final(self).unchanged_but_query(*old(self)),
    {
        let changed = self.query.delete_char();
        if changed {
            self.generation = self.generation + 1;
        }
        changed
    }

    /// Delete from the query cursor to the end of the line.
    pub fn act_kill_line(&mut self) -> (changed: bool)
        requires
            old(self).wf(),
            old(self).gen_id() < u64::MAX,
        ensures
            final(self).wf(),
            changed == (old(self).query_at() < old(self).query_text().len()),
            final(self).query_text() =~= old(self).query_text().take(old(self).query_at()),
            final(self).query_at() == old(self).query_at(),
            final(self).gen_id() == old(self).gen_id() + (if changed {
                1u64
            } else {
                0u64
            }),
            final(self).unchanged_but_query(*old(self)),
    {
        let changed = self.query.kill_line();
        if changed {
            self.generation = self.generation + 1;
        }
        changed
    }

    /// Delete from the start of the line to the query cursor.
    pub fn act_line_discard(&mut self) -> (changed: bool)
        requires
            old(self).wf(),
            old(self).gen_id() < u64::MAX,
        ensures
            final(self).wf(),
            changed == (old(self).query_at() > 0),
            final(self).query_text() =~= old(self).query_text().skip(old(self).query_at()),
            final(self).query_at() == 0,
            final(self).gen_id() == old(self).gen_id() + (if changed {
                1u64
            } else {
                0u64
            }),
            final(self).unchanged_but_query(*old(self)),
    {
        let changed = self.query.line_discard();
        if changed {
            self.generation = self.generation + 1;
        }
        changed
    }

    /// Delete the word before the query cursor.
    pub fn act_backward_kill_word(&mut self) -> (changed: bool)
        requires
            old(self).wf(),
            old(self).gen_id() < u64::MAX,
        ensures
            final(self).wf(),
            changed == (word_start_before(old(self).query_text(), old(self).query_at()) < old(
                self,
            ).query_at()),
            final(self).query_text() =~= old(self).query_text().take(
                word_start_before(old(self).query_text(), old(self).query_at()),
            ) + old(self).query_text().skip(old(self).query_at()),
            final(self).query_at() == word_start_before(
                old(self).query_text(),
                old(self).query_at(),
            ),
            final(self).gen_id() == old(self).gen_id() + (if changed {
                1u64
            } else {
                0u64
            }),
            final(self).unchanged_but_query(*old(self)),
    {
        let changed = self.query.backward_kill_word();
        if changed {
            self.generation = self.generation + 1;
        }
        changed
    }

    /// Delete the word after the query cursor.
    pub fn act_kill_word(&mut self) -> (changed: bool)
        requires
            old(self).wf(),
            old(self).gen_id() < u64::MAX,
        ensures
            final(self).wf(),
            changed == (old(self).query_at() < word_end_after(
                old(self).query_text(),
                old(self).query_at(),
            )),
            final(self).query_text() =~= old(self).query_text().take(old(self).query_at()) + old(
                self,
            ).query_text().skip(word_end_after(old(self).query_text(), old(self).query_at())),
            final(self).query_at() == old(self).query_at(),
            final(self).gen_id() == old(self).gen_id() + (if changed {
                1u64
            } else {
                0u64
            }),
            final(self).unchanged_but_query(*old(self)),
    {
        let changed = self.query.kill_word();
        if changed {
            self.generation = self.generation + 1;
        }
        changed
    }

    /// Move the query cursor one character left.
    pub fn act_backward_char(&mut self)
        requires
            old(self).wf(),
        ensures
            final(self).wf(),
            final(self).query_text() == old(self).query_text(),
            final(self).query_at() == if old(self).query_at() > 0 {
                old(self).query_at() - 1
            } else {
                0int
            },
            final(self).gen_id() == old(self).gen_id(),
            final(self).unchanged_but_query(*old(self)),
    {
        self.query.backward_char();
    }

    /// Move the query cursor one character right.
    pub fn act_forward_char(&mut self)
        requires
            old(self).wf(),
        ensures
            final(self).wf(),
            final(self).query_text() == old(self).query_text(),
            final(self).query_at() == if old(self).query_at() < old(self).query_text().len() {
                old(self).query_at() + 1
            } else {
                old(self).query_text().len() as int
            },
            final(self).gen_id() == old(self).gen_id(),
            final(self).unchanged_but_query(*old(self)),
    {
        self.query.forward_char();
    }

    /// Move the query cursor one word backward.
    pub fn act_backward_word(&mut self)
        requires
            old(self).wf(),
        ensures
            final(self).wf(),
            final(self).query_text() == old(self).query_text(),
            final(self).query_at() == word_start_before(
                old(self).query_text(),
                old(self).query_at(),
            ),
            final(self).gen_id() == old(self).gen_id(),
            final(self).unchanged_but_query(*old(self)),
    {
        self.query.backward_word();
    }

    /// Move the query cursor one word forward.
    pub fn act_forward_word(&mut self)
        requires
            old(self).wf(),
        ensures
            final(self).wf(),
            final(self).query_text() == old(self).query_text(),
            final(self).query_at() == word_end_after(old(self).query_text(), old(self).query_at()),
            final(self).gen_id() == old(self).gen_id(),
            final(self).unchanged_but_query(*old(self)),
    {
        self.query.forward_word();
    }

    /// Move the query cursor to the start of the line.
    pub fn act_beginning_of_line(&mut self)
        requires
            old(self).wf(),
        ensures
            final(self).wf(),
            final(self).query_text() == old(self).query_text(),
            final(self).query_at() == 0,
            final(self).gen_id() == old(self).gen_id(),
            final(self).unchanged_but_query(*old(self)),
    {
        self.query.beginning_of_line();
    }

    /// Move the query cursor to the end of the line.
    pub fn act_end_of_line(&mut self)
        requires
            old(self).wf(),
        ensures
            final(self).wf(),
            final(self).query_text() == old(self).query_text(),
            final(self).query_at() == old(self).query_text().len(),
            final(self).gen_id() == old(self).gen_id(),
            final(self).unchanged_but_query(*old(self)),
    {
        self.query.end_of_line();
    }

    /// Move the highlighted row by `delta`, clamped to the result set's
    /// bounds; it does not wrap.
    pub fn act_move_line_cursor(&mut self, delta: i64)
        requires
            old(self).wf(),
        ensures
            final(self).wf(),
            final(self).highlighted() == move_row(
                old(self).highlighted(),
                delta as int,
                old(self).ranked_seq().len() as int,
            ),
            final(self).ranked_seq() == old(self).ranked_seq(),
            final(self).selection_seq() == old(self).selection_seq(),
            final(self).query_text() == old(self).query_text(),
            final(self).gen_id() == old(self).gen_id(),
            final(self).display_gen() == old(self).display_gen(),
    {
        let len = self.ranked.len();
        if len == 0 {
            self.line_cursor = 0;
            return ;
        }
        let max = len - 1;
        if delta >= 0 {
            let d = delta as u64;
            let cur = self.line_cursor as u64;
            let cap = max as u64;
            if d <= cap - cur {
                self.line_cursor = (cur + d) as usize;
            } else {
                self.line_cursor = max;
            }
        } else {
            let d: u64 = ((-(delta + 1)) as u64) + 1;
            let cur = self.line_cursor as u64;
            if d <= cur {
                self.line_cursor = (cur - d) as usize;
            } else {
                self.line_cursor = 0;
            }
        }
    }

    /// Toggle selection of the highlighted candidate, or force it to the
    /// given value. Selection is keyed by the candidate's pool index, so
    /// it survives re-ranking. With nothing displayed, nothing changes.
    pub fn act_toggle_select(&mut self, force: Option<bool>)
        requires
            old(self).wf(),
            old(self).selection_seq().len() < usize::MAX,
        ensures
            final(self).wf(),
            old(self).ranked_seq().len() == 0 ==> *final(self) == *old(self),
            old(self).ranked_seq().len() > 0 ==> ({
                let x = old(self).ranked_seq()[old(self).highlighted()].index;
                let was = old(self).selection_seq().contains(x);
                &&& final(self).selection_seq().contains(x) == toggle_target(was, force)
                &&& forall|y: usize|
                    y != x ==> final(self).selection_seq().contains(y) == old(
                        self,
                    ).selection_seq().contains(y)
                &&& (!was && toggle_target(was, force)) ==> final(self).selection_seq() =~= old(
                    self,
                ).selection_seq().push(x)
                &&& (was == toggle_target(was, force)) ==> final(self).selection_seq() == old(
                    self,
                ).selection_seq()
            }),
            final(self).ranked_seq() == old(self).ranked_seq(),
            final(self).query_text() == old(self).query_text(),
            final(self).gen_id() == old(self).gen_id(),
            final(self).display_gen() == old(self).display_gen(),
            final(self).highlighted() == old(self).highlighted(),
    {
        if self.ranked.len() == 0 {
            return ;
        }
        let x = self.ranked.get(self.line_cursor).index;
        self.selection.toggle(x, force);
        proof {
            assert forall|y: usize| y != x implies self.selection.seq().contains(y) == old(
                self,
            ).selection.seq().contains(y) by {
                assert(self.selection.has(y) == old(self).selection.has(y));
            }
        }
    }

    /// Clear all displayed matches and adopt `generation` as the
    /// displayed generation: the acknowledgment half of the
    /// start-of-pass handshake. The selection set is untouched.
    pub fn clear_items(&mut self, generation: u64)
        requires
            old(self).wf(),
        ensures
            final(self).wf(),
            final(self).ranked_seq() =~= Seq::<MatchedItem>::empty(),
            final(self).display_gen() == generation,
            final(self).highlighted() == 0,
            final(self).selection_seq() == old(self).selection_seq(),
            final(self).query_text() == old(self).query_text(),
            final(self).query_at() == old(self).query_at(),
            final(self).gen_id() == old(self).gen_id(),
    {
        self.ranked.clear();
        self.display_generation = generation;
        self.line_cursor = 0;
    }

    /// Deliver one match. A match of the displayed generation is placed
    /// into the ranked order; a stale one (any other generation) is
    /// discarded. The selection set is untouched either way.
    pub fn push_item(&mut self, item: MatchedItem)
        requires
            old(self).wf(),
            old(self).ranked_seq().len() < usize::MAX,
        ensures
            final(self).wf(),
            item.generation != old(self).display_gen() ==> *final(self) == *old(self),
            item.generation == old(self).display_gen() ==> exists|pos: int|
                0 <= pos <= old(self).ranked_seq().len() && final(self).ranked_seq() =~= old(
                    self,
                ).ranked_seq().insert(pos, item),
            final(self).selection_seq() == old(self).selection_seq(),
            final(self).query_text() == old(self).query_text(),
            final(self).gen_id() == old(self).gen_id(),
            final(self).display_gen() == old(self).display_gen(),
            final(self).highlighted() == old(self).highlighted(),
    {
        if item.generation != self.display_generation {
            return ;
        }
        let ghost r0 = self.ranked.seq();
        let ghost it = item;
        self.ranked.insert(item);
        proof {
            let pos = choose|pos: int|
                0 <= pos <= r0.len() && self.ranked.seq() =~= r0.insert(pos, it);
            assert forall|i: int|
                0 <= i < self.ranked.seq().len() implies (#[trigger] self.ranked.seq()[i]).generation
                == self.display_generation by {
                if i < pos {
                    assert(self.ranked.seq()[i] == r0[i]);
                } else if i > pos {
                    assert(self.ranked.seq()[i] == r0[i - 1]);
                }
            }
        }
    }

    /// Update the process statistics shown in the status line.
    pub fn update_process_info(&mut self, matched: u64, total: u64, processed: u64)
        requires
            old(self).wf(),
        ensures
            final(self).wf(),
            final(self).stats() == (matched, total, processed),
            final(self).ranked_seq() == old(self).ranked_seq(),
            final(self).selection_seq() == old(self).selection_seq(),
            final(self).query_text() == old(self).query_text(),
            final(self).gen_id() == old(self).gen_id(),
            final(self).display_gen() == old(self).display_gen(),
    {
        self.matched_stat = matched;
        self.total_stat = total;
        self.processed_stat = processed;
    }

    /// The process statistics: matched, total, processed.
    pub closed spec fn stats(self) -> (u64, u64, u64) {
        (self.matched_stat, self.total_stat, self.processed_stat)
    }

    /// Read the statistics.
    pub fn get_stats(&self) -> (r: (u64, u64, u64))
        ensures
            r == self.stats(),
    {
        (self.matched_stat, self.total_stat, self.processed_stat)
    }

    /// Re-derive the viewport dimensions from the terminal size.
    pub fn resize(&mut self, width: usize, height: usize)
        requires
            old(self).wf(),
        ensures
            final(self).wf(),
            final(self).viewport() == (width, height),
            final(self).ranked_seq() == old(self).ranked_seq(),
            final(self).selection_seq() == old(self).selection_seq(),
            final(self).query_text() == old(self).query_text(),
            final(self).gen_id() == old(self).gen_id(),
            final(self).display_gen() == old(self).display_gen(),
    {
        self.width = width;
        self.height = height;
    }

    /// The viewport dimensions: width, height.
    pub closed spec fn viewport(self) -> (usize, usize) {
        (self.width, self.height)
    }

    /// The first displayed row of the viewport: the window of `height`
    /// rows over the ranked results that keeps the highlighted row
    /// visible, scrolled only as far as needed.
    pub open spec fn window_start(cur: int, height: int) -> int {
        if height <= 0 {
            cur
        } else if cur < height {
            0
        } else {
            cur - height + 1
        }
    }

    /// Read the viewport dimensions.
    pub fn get_viewport(&self) -> (r: (usize, usize))
        ensures
            r == self.viewport(),
    {
        (self.width, self.height)
    }

    /// The first ranked row the viewport shows for the current highlight
    /// and height; rows `start..start + height` are rendered.
    pub fn viewport_start(&self) -> (r: usize)
        requires
            self.wf(),
        ensures
            r == Self::window_start(self.highlighted(), self.viewport().1 as int),
            r <= self.highlighted(),
    {
        if self.height == 0 {
            self.line_cursor
        } else if self.line_cursor < self.height {
            0
        } else {
            self.line_cursor - self.height + 1
        }
    }

    /// On accept with nothing selected, the highlighted candidate is
    /// auto-selected, so that exactly it is emitted.
    pub fn on_accept(&mut self)
        requires
            old(self).wf(),
            old(self).selection_seq().len() < usize::MAX,
        ensures
            final(self).wf(),
            old(self).selection_seq().len() == 0 && old(self).ranked_seq().len() > 0
                ==> final(self).selection_seq() =~= seq![
                old(self).ranked_seq()[old(self).highlighted()].index,
            ],
            old(self).selection_seq().len() == 0 && old(self).ranked_seq().len() == 0
                ==> *final(self) == *old(self),
            old(self).selection_seq().len() > 0 ==> *final(self) == *old(self),
            final(self).ranked_seq() == old(self).ranked_seq(),
            final(self).query_text() == old(self).query_text(),
    {
        if self.selection.len() == 0 {
            proof {
                if self.ranked.seq().len() > 0 {
                    let x = self.ranked.seq()[self.line_cursor as int].index;
                    if self.selection.seq().contains(x) {
                        let w = choose|w: int|
                            0 <= w < self.selection.seq().len() && self.selection.seq()[w] == x;
                        assert(false);
                    }
                }
            }
            self.act_toggle_select(Some(true));
            proof {
                if old(self).ranked_seq().len() > 0 {
                    assert(self.selection_seq() =~= Seq::<usize>::empty().push(
                        old(self).ranked_seq()[old(self).highlighted()].index,
                    ));
                }
            }
        }
    }

    /// The selected candidates' raw texts, one per selected index, in
    /// selection order: what accepting emits.
    pub fn output(&self, pool: &CandidatePool) -> (r: Vec<Vec<char>>)
        requires
            self.wf(),
            pool.wf(),
            forall|i: int|
                0 <= i < self.selection_seq().len() ==> (#[trigger] self.selection_seq()[i])
                    < pool.texts().len(),
        ensures
            r@.len() == self.selection_seq().len(),
            forall|i: int|
                0 <= i < r@.len() ==> (#[trigger] r@[i])@ == pool.texts()[self.selection_seq()[i] as int],
    {
        let mut r: Vec<Vec<char>> = Vec::new();
        let n = self.selection.len();
        let mut i: usize = 0;
        while i < n
            invariant
                self.wf(),
                pool.wf(),
                n == self.selection_seq().len(),
                forall|k: int|
                    0 <= k < self.selection_seq().len() ==> (#[trigger] self.selection_seq()[k])
                        < pool.texts().len(),
                0 <= i <= n,
                r@.len() == i,
                forall|k: int|
                    0 <= k < i ==> (#[trigger] r@[k])@ == pool.texts()[self.selection_seq()[k] as int],
            decreases n - i,
        {
            let idx = self.selection.get(i);
            let c = pool.get(idx);
            let mut text: Vec<char> = Vec::new();
            let mut j: usize = 0;
            while j < c.text.len()
                invariant
                    0 <= j <= c.text@.len(),
                    text@ =~= c.text@.take(j as int),
                decreases c.text@.len() - j,
            {
                text.push(c.text[j]);
                proof {
                    assert(text@ =~= c.text@.take(j as int + 1));
                }
                j = j + 1;
            }
            proof {
                assert(c.text@.take(c.text@.len() as int) =~= c.text@);
            }
            r.push(text);
            i = i + 1;
        }
        r
    }
}

} // verus!
