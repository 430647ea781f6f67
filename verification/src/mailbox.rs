//! The coalescing event mailbox.
//!
//! A mailbox holds at most one pending payload per event kind: a new
//! `set` for a kind replaces, rather than queues behind, any unread
//! value of that kind, so fast producers never build an unbounded
//! backlog. `take` removes and returns every pending (kind, payload)
//! pair at once, each kind exactly once, leaving the mailbox empty.
//! Blocking until the mailbox is non-empty is the caller's concern; the
//! mailbox itself is the sequential heart of that primitive.
//!
//! Coalescing is lossy by design: two same-kind writes before a drain
//! keep only the later payload. That is the right trade for status
//! reports, whose consumer only wants the latest value, but it can drop
//! rapid same-kind user events (two quick keystrokes) under a slow
//! consumer. A delivery that must not lose items — the match stream —
//! belongs on an ordered channel instead.

use vstd::prelude::*;

verus! {

/// The fixed vocabulary of event kinds exchanged between the producer,
/// the matcher and the interaction state.
#[derive(PartialEq, Eq, Structural, Clone, Copy, Debug)]
pub enum Event {
    ReaderNewItem,
    ReaderFinished,
    MatcherNewItem,
    MatcherResetQuery,
    MatcherUpdateProcess,
    MatcherStart,
    MatcherStartReceived,
    MatcherEnd,
    QueryChange,
    InputInvalid,
    InputKey,
    Resize,
    ActAddChar,
    ActAbort,
    ActAccept,
    ActBackwardChar,
    ActBackwardDeleteChar,
    ActBackwardKillWord,
    ActBackwardWord,
    ActBeginningOfLine,
    ActCancel,
    ActClearScreen,
    ActDeleteChar,
    ActDeleteCharEof,
    ActDeselectAll,
    ActDown,
    ActEndOfLine,
    ActForwardChar,
    ActForwardWord,
    ActIgnore,
    ActKillLine,
    ActKillWord,
    ActNextHistory,
    ActPageDown,
    ActPageUp,
    ActPreviousHistory,
    ActSelectAll,
    ActToggle,
    ActToggleAll,
    ActToggleDown,
    ActToggleIn,
    ActToggleOut,
    ActToggleSort,
    ActToggleUp,
    ActUnixLineDiscard,
    ActUnixWordRubout,
    ActUp,
    ActYank,
}

/// The typed payload carried by an event, fixed per kind at the point
/// of consumption.
pub enum Payload {
    /// A bare signal.
    Flag(bool),
    /// A typed character, e.g. for character insertion.
    Ch(char),
    /// A query text with the generation that produced it.
    Query(Vec<char>, u64),
    /// Progress counters: matched, total, processed.
    Counts(u64, u64, u64),
}

/// No event kind occurs twice.
pub open spec fn distinct_kinds(s: Seq<(Event, Payload)>) -> bool {
    forall|i: int, j: int| 0 <= i < j < s.len() ==> (#[trigger] s[i]).0 != (#[trigger] s[j]).0
}

/// The map from pending kind to pending payload that a list of entries
/// denotes; a later entry for a kind wins.
pub open spec fn entries_map(s: Seq<(Event, Payload)>) -> Map<Event, Payload>
    decreases s.len(),
{
    if s.len() == 0 {
        Map::empty()
    } else {
        entries_map(s.drop_last()).insert(s.last().0, s.last().1)
    }
}

pub proof fn lemma_entries_map_key(s: Seq<(Event, Payload)>, k: Event)
    ensures
        entries_map(s).contains_key(k) <==> exists|i: int|
            0 <= i < s.len() && (#[trigger] s[i]).0 == k,
        distinct_kinds(s) ==> forall|i: int|
            0 <= i < s.len() && (#[trigger] s[i]).0 == k ==> entries_map(s)[k] == s[i].1,
    decreases s.len(),
{
    if s.len() > 0 {
        let d = s.drop_last();
        lemma_entries_map_key(d, k);
        assert(forall|i: int| 0 <= i < d.len() ==> #[trigger] d[i] == s[i]);
        assert forall|i: int|
            0 <= i < s.len() && (#[trigger] s[i]).0 == k implies entries_map(s).contains_key(
            k,
        ) by {
            if i < s.len() - 1 {
                assert(d[i] == s[i]);
                assert(entries_map(d).contains_key(k));
            }
        }
        if entries_map(s).contains_key(k) {
            if s.last().0 == k {
                assert(s[s.len() - 1].0 == k);
            } else {
                let i = choose|i: int| 0 <= i < d.len() && (#[trigger] d[i]).0 == k;
                assert(s[i].0 == k);
            }
        }
        assert(distinct_kinds(s) ==> distinct_kinds(d));
        if distinct_kinds(s) {
            assert forall|i: int|
                0 <= i < s.len() && (#[trigger] s[i]).0 == k implies entries_map(s)[k]
                == s[i].1 by {
                if i < s.len() - 1 {
                    assert(d[i] == s[i]);
                    assert(s[s.len() - 1].0 != s[i].0);
                    assert(entries_map(s)[k] == entries_map(d)[k]);
                }
            }
        }
    }
}

proof fn lemma_entries_map_update(s: Seq<(Event, Payload)>, i: int, v: Payload)
    requires
        distinct_kinds(s),
        0 <= i < s.len(),
    ensures
        entries_map(s.update(i, (s[i].0, v))) =~= entries_map(s).insert(s[i].0, v),
    decreases s.len(),
{
    let k = s[i].0;
    let s2 = s.update(i, (k, v));
    if i == s.len() - 1 {
        assert(s2.drop_last() =~= s.drop_last());
        assert(s2.last() == (k, v));
    } else {
        let d = s.drop_last();
        assert(forall|j: int| 0 <= j < d.len() ==> #[trigger] d[j] == s[j]);
        assert(distinct_kinds(d));
        lemma_entries_map_update(d, i, v);
        assert(s2.drop_last() =~= d.update(i, (k, v)));
        assert(s2.last() == s.last());
        assert(k != s.last().0);
        assert(entries_map(s2) =~= entries_map(d).insert(k, v).insert(s.last().0, s.last().1));
    }
}

/// A coalescing mailbox: one pending payload per event kind.
pub struct Mailbox {
    entries: Vec<(Event, Payload)>,
}

impl Mailbox {
    /// The pending (kind, payload) entries, as a map.
    pub closed spec fn pending(self) -> Map<Event, Payload> {
        entries_map(self.entries@)
    }

    /// Internal shape: each kind stored at most once.
    pub closed spec fn wf(self) -> bool {
        distinct_kinds(self.entries@)
    }

    /// A mailbox with nothing pending.
    pub fn new() -> (r: Mailbox)
        ensures
            r.wf(),
            r.pending() =~= Map::<Event, Payload>::empty(),
    {
        Mailbox { entries: Vec::new() }
    }

    /// Store `payload` under `kind`, unconditionally replacing any value
    /// already pending for that kind: the latest write wins per kind.
    pub fn set(&mut self, kind: Event, payload: Payload)
        requires
            old(self).wf(),
        ensures
            final(self).wf(),
            final(self).pending() =~= old(self).pending().insert(kind, payload),
    {
        let ghost s0 = self.entries@;
        let mut i: usize = 0;
        while i < self.entries.len()
            invariant
                self.entries@ == s0,
                old(self).entries@ == s0,
                distinct_kinds(s0),
                0 <= i <= s0.len(),
                forall|j: int| 0 <= j < i ==> (#[trigger] s0[j]).0 != kind,
            decreases s0.len() - i,
        {
            if self.entries[i].0 == kind {
                self.entries.push((kind, payload));
                let _ = self.entries.swap_remove(i);
                proof {
                    assert(s0[i as int].0 == kind);
                    assert(self.entries@ =~= s0.update(i as int, (kind, payload)));
                    lemma_entries_map_update(s0, i as int, payload);
                    assert(s0.update(i as int, (s0[i as int].0, payload)) == s0.update(
                        i as int,
                        (kind, payload),
                    ));
                    assert(entries_map(self.entries@) =~= entries_map(s0).insert(kind, payload));
                    let s1 = self.entries@;
                    assert forall|a: int, b: int|
                        0 <= a < b < s1.len() implies (#[trigger] s1[a]).0 != (#[trigger] s1[b]).0 by {
                        if a != i && b != i {
                            assert(s1[a] == s0[a] && s1[b] == s0[b]);
                        } else if a == i {
                            assert(s1[b] == s0[b] && s0[b].0 != s0[i as int].0);
                        } else {
                            assert(s1[a] == s0[a] && s0[a].0 != s0[i as int].0);
                        }
                    }
                }
                return ;
            }
            i = i + 1;
        }
        self.entries.push((kind, payload));
        proof {
            assert(self.entries@.drop_last() =~= s0);
            lemma_entries_map_key(s0, kind);
            assert forall|a: int, b: int|
                0 <= a < b < self.entries@.len() implies (#[trigger] self.entries@[a]).0 != (
            #[trigger] self.entries@[b]).0 by {
                if b == s0.len() as int {
                    assert(self.entries@[a] == s0[a]);
                }
            }
        }
    }

    /// Atomically remove and return the full set of pending entries,
    /// each kind exactly once, leaving the mailbox empty.
    pub fn take(&mut self) -> (r: Vec<(Event, Payload)>)
        requires
            old(self).wf(),
        ensures
            final(self).wf(),
            final(self).pending() =~= Map::<Event, Payload>::empty(),
            distinct_kinds(r@),
            entries_map(r@) == old(self).pending(),
    {
        let mut r: Vec<(Event, Payload)> = Vec::new();
        core::mem::swap(&mut self.entries, &mut r);
        r
    }

    /// Whether nothing is pending; a caller's wait loop blocks while
    /// this holds.
    pub fn is_empty(&self) -> (r: bool)
        ensures
            r <==> self.pending() =~= Map::<Event, Payload>::empty(),
    {
        proof {
            if self.entries@.len() > 0 {
                lemma_entries_map_key(self.entries@, self.entries@.last().0);
                assert(self.pending().contains_key(self.entries@.last().0));
            }
        }
        self.entries.len() == 0
    }
}

/// Law (mailbox coalescing): setting a kind twice before any drain keeps
/// exactly the later payload; after the two writes the kind is pending
/// with that payload, and draining an emptied mailbox finds nothing.
pub proof fn lemma_mailbox_coalesce(m: Map<Event, Payload>, k: Event, a: Payload, b: Payload)
    ensures
        m.insert(k, a).insert(k, b) =~= m.insert(k, b),
        m.insert(k, b).contains_key(k),
        m.insert(k, b)[k] == b,
{
}

} // verus!
