//! The candidate pool: an append-only collection of candidate lines.
//!
//! Candidates are immutable once appended and carry their stable index,
//! the position of their append. Other components refer to a candidate
//! only by that index. The producer is the pool's sole appender; scans
//! read by index below a length snapshot, so the pool only ever grows.

use vstd::prelude::*;
use crate::score::MAX_TEXT_LEN;

verus! {

/// One candidate line: its append position and its raw text.
pub struct Candidate {
    pub index: usize,
    pub text: Vec<char>,
}

/// The append-only pool of candidates.
pub struct CandidatePool {
    items: Vec<Candidate>,
}

impl CandidatePool {
    /// The pool's contents as a sequence of texts; a candidate's index
    /// is its position here.
    pub closed spec fn texts(self) -> Seq<Seq<char>> {
        self.items@.map_values(|c: Candidate| c.text@)
    }

    /// Every stored index is the append position and every text is
    /// within the accepted length.
    pub closed spec fn wf(self) -> bool {
        &&& forall|i: int|
            0 <= i < self.items@.len() ==> (#[trigger] self.items@[i]).index == i
        &&& forall|i: int|
            0 <= i < self.items@.len() ==> (#[trigger] self.items@[i]).text@.len()
                <= MAX_TEXT_LEN
    }

    /// An empty pool.
    pub fn new() -> (r: CandidatePool)
        ensures
            r.wf(),
            r.texts() =~= Seq::<Seq<char>>::empty(),
    {
        CandidatePool { items: Vec::new() }
    }

    /// Number of candidates appended so far.
    pub fn len(&self) -> (r: usize)
        ensures
            r == self.texts().len(),
    {
        self.items.len()
    }

    /// Append one candidate line; it receives the next stable index.
    pub fn append(&mut self, text: Vec<char>)
        requires
            old(self).wf(),
            text@.len() <= MAX_TEXT_LEN,
            old(self).texts().len() < usize::MAX,
        ensures
            final(self).wf(),
            final(self).texts() =~= old(self).texts().push(text@),
    {
        let idx = self.items.len();
        self.items.push(Candidate { index: idx, text });
        proof {
            assert(self.items@.drop_last() =~= old(self).items@);
            assert(final(self).texts() =~= old(self).texts().push(
                self.items@.last().text@,
            ));
        }
    }

    /// Read the candidate at `index`.
    pub fn get(&self, index: usize) -> (r: &Candidate)
        requires
            self.wf(),
            index < self.texts().len(),
        ensures
            r.index == index,
            r.text@ == self.texts()[index as int],
            r.text@.len() <= MAX_TEXT_LEN,
    {
        &self.items[index]
    }
}

} // verus!
