//! The query buffer: editable text plus a cursor offset.
//!
//! Each editing operation reports whether it changed the text; the
//! interaction state bumps the generation counter exactly on a change.

use vstd::prelude::*;
use crate::chars::is_word_char;
use crate::chars::exec_is_word_char;
use crate::score::MAX_TEXT_LEN;

verus! {

/// Largest cursor position with no word character just before it, at or
/// below `c`: where a backward word-skip stops.
pub open spec fn skip_word_back(t: Seq<char>, c: int) -> int
    decreases c,
{
    if c > 0 && c <= t.len() && is_word_char(t[c - 1]) {
        skip_word_back(t, c - 1)
    } else {
        c
    }
}

/// Largest cursor position with no non-word character just before it,
/// at or below `c`: where a backward separator-skip stops.
pub open spec fn skip_sep_back(t: Seq<char>, c: int) -> int
    decreases c,
{
    if c > 0 && c <= t.len() && !is_word_char(t[c - 1]) {
        skip_sep_back(t, c - 1)
    } else {
        c
    }
}

/// Where the cursor lands moving one word backward: skip separators,
/// then the word before them.
pub open spec fn word_start_before(t: Seq<char>, c: int) -> int {
    skip_word_back(t, skip_sep_back(t, c))
}

/// Smallest cursor position with no word character just after it, at or
/// above `c`: where a forward word-skip stops.
pub open spec fn skip_word_fwd(t: Seq<char>, c: int) -> int
    decreases t.len() - c,
{
    if 0 <= c < t.len() && is_word_char(t[c]) {
        skip_word_fwd(t, c + 1)
    } else {
        c
    }
}

/// Smallest cursor position with no non-word character just after it,
/// at or above `c`.
pub open spec fn skip_sep_fwd(t: Seq<char>, c: int) -> int
    decreases t.len() - c,
{
    if 0 <= c < t.len() && !is_word_char(t[c]) {
        skip_sep_fwd(t, c + 1)
    } else {
        c
    }
}

/// Where the cursor lands moving one word forward: skip separators,
/// then the word after them.
pub open spec fn word_end_after(t: Seq<char>, c: int) -> int {
    skip_word_fwd(t, skip_sep_fwd(t, c))
}

pub proof fn lemma_skip_back_bounds(t: Seq<char>, c: int)
    requires
        0 <= c <= t.len(),
    ensures
        0 <= skip_word_back(t, c) <= c,
        0 <= skip_sep_back(t, c) <= c,
        0 <= word_start_before(t, c) <= c,
    decreases c,
{
    if c > 0 {
        lemma_skip_back_bounds(t, c - 1);
    }
}

pub proof fn lemma_skip_fwd_bounds(t: Seq<char>, c: int)
    requires
        0 <= c <= t.len(),
    ensures
        c <= skip_word_fwd(t, c) <= t.len(),
        c <= skip_sep_fwd(t, c) <= t.len(),
        c <= word_end_after(t, c) <= t.len(),
    decreases t.len() - c,
{
    if c < t.len() {
        lemma_skip_fwd_bounds(t, c + 1);
    }
}

/// The query: text buffer plus cursor offset.
pub struct Query {
    text: Vec<char>,
    cursor: usize,
}

impl Query {
    /// The text as a sequence of characters.
    pub closed spec fn text(self) -> Seq<char> {
        self.text@
    }

    /// The cursor offset, in characters from the start.
    pub closed spec fn at(self) -> int {
        self.cursor as int
    }

    /// Cursor within bounds, text within the accepted length.
    pub open spec fn wf(self) -> bool {
        0 <= self.at() <= self.text().len() <= MAX_TEXT_LEN
    }

    /// An empty query with the cursor at the start.
    pub fn new() -> (r: Query)
        ensures
            r.wf(),
            r.text() =~= Seq::<char>::empty(),
            r.at() == 0,
    {
        Query { text: Vec::new(), cursor: 0 }
    }

    /// The text, copied out for a matching pass.
    pub fn chars(&self) -> (r: Vec<char>)
        ensures
            r@ == self.text(),
    {
        let mut r: Vec<char> = Vec::new();
        let mut i: usize = 0;
        while i < self.text.len()
            invariant
                0 <= i <= self.text@.len(),
                r@ =~= self.text@.take(i as int),
            decreases self.text@.len() - i,
        {
            r.push(self.text[i]);
            proof {
                assert(r@ =~= self.text@.take(i as int + 1));
            }
            i = i + 1;
        }
        proof {
            assert(self.text@.take(self.text@.len() as int) =~= self.text@);
        }
        r
    }

    /// Insert a character at the cursor; the cursor moves past it.
    pub fn add_char(&mut self, c: char) -> (changed: bool)
        requires
            old(self).wf(),
            old(self).text().len() < MAX_TEXT_LEN,
        ensures
            final(self).wf(),
            changed,
            final(self).text() =~= old(self).text().insert(old(self).at(), c),
            final(self).at() == old(self).at() + 1,
    {
        self.text.insert(self.cursor, c);
        self.cursor = self.cursor + 1;
        true
    }

    /// Delete the character before the cursor, if any.
    pub fn backward_delete_char(&mut self) -> (changed: bool)
        requires
            old(self).wf(),
        ensures
            final(self).wf(),
            changed == (old(self).at() > 0),
            old(self).at() > 0 ==> final(self).text() =~= old(self).text().remove(
                old(self).at() - 1,
            ) && final(self).at() == old(self).at() - 1,
            old(self).at() == 0 ==> *final(self) == *old(self),
    {
        if self.cursor == 0 {
            return false;
        }
        self.cursor = self.cursor - 1;
        let _ = self.text.remove(self.cursor);
        true
    }

    /// Delete the character at the cursor, if any.
    pub fn delete_char(&mut self) -> (changed: bool)
        requires
            old(self).wf(),
        ensures
            final(self).wf(),
            changed == (old(self).at() < old(self).text().len()),
            old(self).at() < old(self).text().len() ==> final(self).text() =~= old(
                self,
            ).text().remove(old(self).at()) && final(self).at() == old(self).at(),
            old(self).at() == old(self).text().len() ==> *final(self) == *old(self),
    {
        if self.cursor == self.text.len() {
            return false;
        }
        let _ = self.text.remove(self.cursor);
        true
    }

    /// Delete from the cursor to the end of the line.
    pub fn kill_line(&mut self) -> (changed: bool)
        requires
            old(self).wf(),
        ensures
            final(self).wf(),
            changed == (old(self).at() < old(self).text().len()),
            final(self).text() =~= old(self).text().take(old(self).at()),
            final(self).at() == old(self).at(),
    {
        let changed = self.cursor < self.text.len();
        self.text.truncate(self.cursor);
        proof {
            assert(self.text@ =~= old(self).text@.take(old(self).cursor as int));
        }
        changed
    }

    /// Delete from the start of the line to the cursor.
    pub fn line_discard(&mut self) -> (changed: bool)
        requires
            old(self).wf(),
        ensures
            final(self).wf(),
            changed == (old(self).at() > 0),
            final(self).text() =~= old(self).text().skip(old(self).at()),
            final(self).at() == 0,
    {
        let changed = self.cursor > 0;
        let rest = self.text.split_off(self.cursor);
        self.text = rest;
        self.cursor = 0;
        changed
    }

    /// Move the cursor one character left, stopping at the start.
    pub fn backward_char(&mut self)
        requires
            old(self).wf(),
        ensures
            final(self).wf(),
            final(self).text() == old(self).text(),
            final(self).at() == if old(self).at() > 0 {
                old(self).at() - 1
            } else {
                0int
            },
    {
        if self.cursor > 0 {
            self.cursor = self.cursor - 1;
        }
    }

    /// Move the cursor one character right, stopping at the end.
    pub fn forward_char(&mut self)
        requires
            old(self).wf(),
        ensures
            final(self).wf(),
            final(self).text() == old(self).text(),
            final(self).at() == if old(self).at() < old(self).text().len() {
                old(self).at() + 1
            } else {
                old(self).text().len() as int
            },
    {
        if self.cursor < self.text.len() {
            self.cursor = self.cursor + 1;
        }
    }

    /// Move the cursor to the start of the line.
    pub fn beginning_of_line(&mut self)
        requires
            old(self).wf(),
        ensures
            final(self).wf(),
            final(self).text() == old(self).text(),
            final(self).at() == 0,
    {
        self.cursor = 0;
    }

    /// Move the cursor to the end of the line.
    pub fn end_of_line(&mut self)
        requires
            old(self).wf(),
        ensures
            final(self).wf(),
            final(self).text() == old(self).text(),
            final(self).at() == old(self).text().len(),
    {
        self.cursor = self.text.len();
    }

    fn word_start(&self) -> (r: usize)
        requires
            self.wf(),
        ensures
            r == word_start_before(self.text(), self.at()),
            0 <= r <= self.at(),
    {
        proof {
            lemma_skip_back_bounds(self.text@, self.cursor as int);
        }
        let ghost t = self.text@;
        let ghost c0 = self.cursor as int;
        let mut c = self.cursor;
        while c > 0 && !exec_is_word_char(self.text[c - 1])
            invariant
                self.wf(),
                t == self.text@,
                0 <= c <= c0 <= t.len(),
                skip_sep_back(t, c0) == skip_sep_back(t, c as int),
            decreases c,
        {
            c = c - 1;
        }
        proof {
            assert(skip_sep_back(t, c as int) == c as int);
        }
        let ghost m = c as int;
        while c > 0 && exec_is_word_char(self.text[c - 1])
            invariant
                self.wf(),
                t == self.text@,
                0 <= c <= m <= t.len(),
                skip_word_back(t, m) == skip_word_back(t, c as int),
            decreases c,
        {
            c = c - 1;
        }
        proof {
            assert(skip_word_back(t, c as int) == c as int);
        }
        c
    }

    /// Move the cursor one word backward.
    pub fn backward_word(&mut self)
        requires
            old(self).wf(),
        ensures
            final(self).wf(),
            final(self).text() == old(self).text(),
            final(self).at() == word_start_before(old(self).text(), old(self).at()),
    {
        self.cursor = self.word_start();
    }

    fn word_end(&self) -> (r: usize)
        requires
            self.wf(),
        ensures
            r == word_end_after(self.text(), self.at()),
            self.at() <= r <= self.text().len(),
    {
        proof {
            lemma_skip_fwd_bounds(self.text@, self.cursor as int);
        }
        let ghost t = self.text@;
        let ghost c0 = self.cursor as int;
        let mut c = self.cursor;
        while c < self.text.len() && !exec_is_word_char(self.text[c])
            invariant
                self.wf(),
                t == self.text@,
                0 <= c0 <= c <= t.len(),
                skip_sep_fwd(t, c0) == skip_sep_fwd(t, c as int),
            decreases t.len() - c,
        {
            c = c + 1;
        }
        proof {
            assert(skip_sep_fwd(t, c as int) == c as int);
        }
        let ghost m = c as int;
        while c < self.text.len() && exec_is_word_char(self.text[c])
            invariant
                self.wf(),
                t == self.text@,
                0 <= m <= c <= t.len(),
                skip_word_fwd(t, m) == skip_word_fwd(t, c as int),
            decreases t.len() - c,
        {
            c = c + 1;
        }
        proof {
            assert(skip_word_fwd(t, c as int) == c as int);
        }
        c
    }

    /// Move the cursor one word forward.
    pub fn forward_word(&mut self)
        requires
            old(self).wf(),
        ensures
            final(self).wf(),
            final(self).text() == old(self).text(),
            final(self).at() == word_end_after(old(self).text(), old(self).at()),
    {
        self.cursor = self.word_end();
    }

    /// Delete the word before the cursor (separators, then the word).
    pub fn backward_kill_word(&mut self) -> (changed: bool)
        requires
            old(self).wf(),
        ensures
            final(self).wf(),
            changed == (word_start_before(old(self).text(), old(self).at()) < old(self).at()),
            final(self).text() =~= old(self).text().take(
                word_start_before(old(self).text(), old(self).at()),
            ) + old(self).text().skip(old(self).at()),
            final(self).at() == word_start_before(old(self).text(), old(self).at()),
    {
        let start = self.word_start();
        let changed = start < self.cursor;
        let mut tail = self.text.split_off(self.cursor);
        self.text.truncate(start);
        self.text.append(&mut tail);
        self.cursor = start;
        proof {
            assert(old(self).text@.take(self.cursor as int) =~= old(self).text@.take(
                old(self).cursor as int,
            ).take(self.cursor as int));
        }
        changed
    }

    /// Delete the word after the cursor (separators, then the word).
    pub fn kill_word(&mut self) -> (changed: bool)
        requires
            old(self).wf(),
        ensures
            final(self).wf(),
            changed == (old(self).at() < word_end_after(old(self).text(), old(self).at())),
            final(self).text() =~= old(self).text().take(old(self).at()) + old(
                self,
            ).text().skip(word_end_after(old(self).text(), old(self).at())),
            final(self).at() == old(self).at(),
    {
        let end = self.word_end();
        let changed = self.cursor < end;
        let mut tail = self.text.split_off(end);
        self.text.truncate(self.cursor);
        self.text.append(&mut tail);
        proof {
            assert(old(self).text@.take(self.cursor as int) =~= old(self).text@.take(
                end as int,
            ).take(self.cursor as int));
        }
        changed
    }
}

} // verus!
