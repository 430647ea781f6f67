//! The matching engine: the cancellable, restartable scan over the pool.
//!
//! The engine keeps a scan cursor over the candidate pool and scores one
//! candidate at a time against the current query. A query change
//! discards the pass: the engine adopts the new query and generation,
//! resets the cursor, and waits in `Cancelling` until the interaction
//! state acknowledges the start-of-pass (it has cleared the displayed
//! matches); only then does scanning resume. Every emitted match carries
//! the pass's generation, so stale deliveries are identifiable.

use vstd::prelude::*;
use crate::pool::CandidatePool;
use crate::score::MAX_TEXT_LEN;
use crate::ranked::MatchedItem;
use crate::score::fuzzy_match;
use crate::score::is_subsequence;
use crate::score::best_score;
use crate::score::valid_alignment;
use crate::score::align_score;
use crate::chars::query_is_sensitive;

verus! {

/// A delivered match is sound for query `q` over the pool's `texts`:
/// its candidate matched under the smart-case rule, its score is the
/// maximal one, its positions achieve it, and it carries the pass's
/// generation.
pub open spec fn delivered_ok(
    q: Seq<char>,
    texts: Seq<Seq<char>>,
    generation: u64,
    item: MatchedItem,
) -> bool {
    let s = query_is_sensitive(q);
    &&& 0 <= item.index < texts.len()
    &&& item.generation == generation
    &&& item.text@ == texts[item.index as int]
    &&& is_subsequence(q, texts[item.index as int], s)
    &&& best_score(q, texts[item.index as int], s) == Some(item.score as int)
    &&& valid_alignment(q, texts[item.index as int], item.positions@, s)
    &&& align_score(texts[item.index as int], item.positions@) == item.score as int
}

/// The matcher's control state: `Idle` between passes, `Scanning` while
/// a pass proceeds, `Cancelling` after a query change until the
/// start-of-pass acknowledgment arrives.
#[derive(PartialEq, Eq, Structural, Clone, Copy, Debug)]
pub enum MatcherState {
    Idle,
    Scanning,
    Cancelling,
}

/// The matching engine's state for one pass.
pub struct MatcherEngine {
    query: Vec<char>,
    generation: u64,
    cursor: usize,
    matched: u64,
    state: MatcherState,
}

impl MatcherEngine {
    /// The query this pass scores against.
    pub closed spec fn query_text(self) -> Seq<char> {
        self.query@
    }

    /// The generation tag of this pass.
    pub closed spec fn gen_id(self) -> u64 {
        self.generation
    }

    /// The scan cursor: candidates below it are already scored.
    pub closed spec fn pos(self) -> int {
        self.cursor as int
    }

    /// How many candidates of this pass matched so far.
    pub closed spec fn matched_count(self) -> u64 {
        self.matched
    }

    /// The control state.
    pub closed spec fn st(self) -> MatcherState {
        self.state
    }

    /// The query is within the accepted length and the match counter
    /// never exceeds the processed count.
    pub open spec fn wf(self) -> bool {
        &&& self.query_text().len() <= MAX_TEXT_LEN
        &&& self.matched_count() as int <= self.pos()
    }

    /// A fresh engine: idle, empty query, generation zero.
    pub fn new() -> (r: MatcherEngine)
        ensures
            r.wf(),
            r.st() == MatcherState::Idle,
            r.query_text() =~= Seq::<char>::empty(),
            r.gen_id() == 0,
            r.pos() == 0,
            r.matched_count() == 0,
    {
        MatcherEngine {
            query: Vec::new(),
            generation: 0,
            cursor: 0,
            matched: 0,
            state: MatcherState::Idle,
        }
    }

    /// A query change: discard the in-progress pass, adopt the new query
    /// and generation, reset the scan cursor, and wait in `Cancelling`
    /// for the start-of-pass acknowledgment.
    pub fn reset_query(&mut self, query: Vec<char>, generation: u64)
        requires
            query@.len() <= MAX_TEXT_LEN,
        ensures
            final(self).wf(),
            final(self).st() == MatcherState::Cancelling,
            final(self).query_text() == query@,
            final(self).gen_id() == generation,
            final(self).pos() == 0,
            final(self).matched_count() == 0,
    {
        self.query = query;
        self.generation = generation;
        self.cursor = 0;
        self.matched = 0;
        self.state = MatcherState::Cancelling;
    }

    /// The interaction state has acknowledged the start-of-pass: its
    /// displayed matches are cleared, so scanning may begin.
    pub fn ack_start(&mut self)
        requires
            old(self).wf(),
            old(self).st() == MatcherState::Cancelling,
        ensures
            final(self).wf(),
            final(self).st() == MatcherState::Scanning,
            final(self).query_text() == old(self).query_text(),
            final(self).gen_id() == old(self).gen_id(),
            final(self).pos() == old(self).pos(),
            final(self).matched_count() == old(self).matched_count(),
    {
        self.state = MatcherState::Scanning;
    }

    /// A new-item signal: resume or continue scanning, unless a query
    /// change is still waiting for its acknowledgment.
    pub fn wake(&mut self)
        requires
            old(self).wf(),
            old(self).st() != MatcherState::Cancelling,
        ensures
            final(self).wf(),
            final(self).st() == MatcherState::Scanning,
            final(self).query_text() == old(self).query_text(),
            final(self).gen_id() == old(self).gen_id(),
            final(self).pos() == old(self).pos(),
            final(self).matched_count() == old(self).matched_count(),
    {
        self.state = MatcherState::Scanning;
    }

    /// Score the candidate under the scan cursor against the current
    /// query and advance the cursor. Returns a match exactly when the
    /// query is a subsequence of the candidate under the smart-case
    /// rule; the match carries a maximal score, an alignment achieving
    /// it, and the pass's generation.
    pub fn scan_next(&mut self, pool: &CandidatePool) -> (r: Option<MatchedItem>)
        requires
            old(self).wf(),
            old(self).st() == MatcherState::Scanning,
            pool.wf(),
            old(self).pos() < pool.texts().len(),
        ensures
            final(self).wf(),
            final(self).st() == MatcherState::Scanning,
            final(self).query_text() == old(self).query_text(),
            final(self).gen_id() == old(self).gen_id(),
            final(self).pos() == old(self).pos() + 1,
            r is Some <==> is_subsequence(
                old(self).query_text(),
                pool.texts()[old(self).pos()],
                query_is_sensitive(old(self).query_text()),
            ),
            final(self).matched_count() == old(self).matched_count() + (if r is Some {
                1u64
            } else {
                0u64
            }),
            match r {
                Some(item) => {
                    let q = old(self).query_text();
                    let t = pool.texts()[old(self).pos()];
                    let s = query_is_sensitive(q);
                    &&& item.index as int == old(self).pos()
                    &&& item.generation == old(self).gen_id()
                    &&& item.text@ == t
                    &&& best_score(q, t, s) == Some(item.score as int)
                    &&& valid_alignment(q, t, item.positions@, s)
                    &&& align_score(t, item.positions@) == item.score as int
                },
                None => true,
            },
    {
        let total = pool.len();
        let idx = self.cursor;
        proof {
            assert(idx < total);
        }
        let candidate = pool.get(idx);
        let text_copy = copy_chars(&candidate.text);
        self.cursor = idx + 1;
        match fuzzy_match(&self.query, &candidate.text) {
            Some((score, positions)) => {
                self.matched = self.matched + 1;
                Some(
                    MatchedItem {
                        index: idx,
                        score,
                        positions,
                        generation: self.generation,
                        text: text_copy,
                    },
                )
            },
            None => None,
        }
    }

    /// Scan up to `limit` candidates from the cursor, collecting the
    /// matches in pool-index order: every matched candidate in the
    /// scanned range is delivered exactly once, tagged with the pass's
    /// generation, and nothing else is.
    pub fn scan_batch(&mut self, pool: &CandidatePool, limit: usize) -> (r: Vec<MatchedItem>)
        requires
            old(self).wf(),
            old(self).st() == MatcherState::Scanning,
            pool.wf(),
            old(self).pos() <= pool.texts().len(),
        ensures
            final(self).wf(),
            final(self).st() == MatcherState::Scanning,
            final(self).query_text() == old(self).query_text(),
            final(self).gen_id() == old(self).gen_id(),
            final(self).pos() == if old(self).pos() + limit <= pool.texts().len() {
                old(self).pos() + limit
            } else {
                pool.texts().len() as int
            },
            final(self).matched_count() == old(self).matched_count() + r@.len(),
            forall|k: int|
                0 <= k < r@.len() ==> delivered_ok(
                    old(self).query_text(),
                    pool.texts(),
                    old(self).gen_id(),
                    #[trigger] r@[k],
                ),
            forall|k: int|
                0 <= k < r@.len() ==> old(self).pos() <= (#[trigger] r@[k]).index
                    < final(self).pos(),
            forall|k1: int, k2: int|
                0 <= k1 < k2 < r@.len() ==> (#[trigger] r@[k1]).index < (#[trigger] r@[k2]).index,
            forall|i: int|
                old(self).pos() <= i < final(self).pos() && is_subsequence(
                    old(self).query_text(),
                    #[trigger] pool.texts()[i],
                    query_is_sensitive(old(self).query_text()),
                ) ==> exists|k: int| 0 <= k < r@.len() && (#[trigger] r@[k]).index == i,
    {
        let ghost pos0 = self.cursor as int;
        let ghost q = self.query@;
        let ghost g = self.generation;
        let ghost s = query_is_sensitive(self.query@);
        let mut r: Vec<MatchedItem> = Vec::new();
        let mut n: usize = 0;
        while n < limit && self.cursor < pool.len()
            invariant
                self.wf(),
                pool.wf(),
                self.state == MatcherState::Scanning,
                self.query@ == q,
                self.generation == g,
                s == query_is_sensitive(q),
                0 <= n <= limit,
                self.cursor as int == pos0 + n,
                self.cursor as int <= pool.texts().len(),
                pos0 == old(self).cursor as int,
                q == old(self).query@,
                g == old(self).generation,
                self.matched as int == old(self).matched as int + r@.len(),
                forall|k: int|
                    0 <= k < r@.len() ==> delivered_ok(q, pool.texts(), g, #[trigger] r@[k]),
                forall|k: int|
                    0 <= k < r@.len() ==> pos0 <= (#[trigger] r@[k]).index < self.cursor as int,
                forall|k1: int, k2: int|
                    0 <= k1 < k2 < r@.len() ==> (#[trigger] r@[k1]).index < (
                    #[trigger] r@[k2]).index,
                forall|i: int|
                    pos0 <= i < self.cursor as int && is_subsequence(
                        q,
                        #[trigger] pool.texts()[i],
                        s,
                    ) ==> exists|k: int| 0 <= k < r@.len() && (#[trigger] r@[k]).index == i,
            decreases limit - n,
        {
            let ghost r0 = r@;
            let ghost at = self.cursor as int;
            match self.scan_next(pool) {
                Some(item) => {
                    proof {
                        assert(delivered_ok(q, pool.texts(), g, item));
                    }
                    r.push(item);
                },
                None => {},
            }
            proof {
                assert forall|i: int|
                    pos0 <= i < self.cursor as int && is_subsequence(
                        q,
                        #[trigger] pool.texts()[i],
                        s,
                    ) implies exists|k: int| 0 <= k < r@.len() && (#[trigger] r@[k]).index
                    == i by {
                    if i < at {
                        let k = choose|k: int| 0 <= k < r0.len() && (#[trigger] r0[k]).index == i;
                        assert(r@[k].index == i);
                    } else {
                        assert(r@[r@.len() - 1].index == i);
                    }
                }
            }
            n = n + 1;
        }
        r
    }

    /// The progress report of the current pass: matched, total,
    /// processed.
    pub fn progress(&self, pool: &CandidatePool) -> (r: (u64, u64, u64))
        requires
            self.wf(),
        ensures
            r.0 == self.matched_count(),
            r.1 == pool.texts().len() as u64,
            r.2 == self.pos() as u64,
    {
        (self.matched, pool.len() as u64, self.cursor as u64)
    }
}

fn copy_chars(v: &Vec<char>) -> (r: Vec<char>)
    ensures
        r@ == v@,
{
    let mut r: Vec<char> = Vec::new();
    let mut i: usize = 0;
    while i < v.len()
        invariant
            0 <= i <= v@.len(),
            r@ =~= v@.take(i as int),
        decreases v@.len() - i,
    {
        r.push(v[i]);
        proof {
            assert(r@ =~= v@.take(i as int + 1));
        }
        i = i + 1;
    }
    proof {
        assert(v@.take(v@.len() as int) =~= v@);
    }
    r
}

} // verus!
