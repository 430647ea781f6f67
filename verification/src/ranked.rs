//! The ranked result set: matches ordered by score and tie-breaks.
//!
//! Entries are kept in a total order: higher score first; equal scores
//! are broken by shorter candidate text, then lexical order of the text,
//! then original pool insertion order. `insert` places one entry without
//! re-sorting what is already placed; `clear` empties the set at once.

use vstd::prelude::*;
use crate::chars::lex_lt;
use crate::chars::lex_compare;
use crate::chars::lemma_lex_trichotomy;
use crate::chars::lemma_lex_asym;
use crate::chars::lemma_lex_trans;

verus! {

/// One match produced by a matching pass: the candidate's pool index,
/// its score, the matched text positions (for highlighting), the
/// generation of the pass that produced it, and the candidate text the
/// rank order reads.
pub struct MatchedItem {
    pub index: usize,
    pub score: i64,
    pub positions: Vec<usize>,
    pub generation: u64,
    pub text: Vec<char>,
}

/// The rank order: `a` comes no later than `b`. Higher scores first;
/// ties broken by shorter text, then lexical order of the text, then
/// pool insertion order.
pub open spec fn rank_le(a: MatchedItem, b: MatchedItem) -> bool {
    ||| a.score > b.score
    ||| (a.score == b.score && (a.text@.len() < b.text@.len() || (a.text@.len() == b.text@.len()
        && (lex_lt(a.text@, b.text@) || (a.text@ == b.text@ && a.index <= b.index)))))
}

/// The rank order is total.
pub proof fn lemma_rank_le_total(a: MatchedItem, b: MatchedItem)
    ensures
        rank_le(a, b) || rank_le(b, a),
{
    lemma_lex_trichotomy(a.text@, b.text@);
}

/// The rank order is transitive.
pub proof fn lemma_rank_le_trans(a: MatchedItem, b: MatchedItem, c: MatchedItem)
    requires
        rank_le(a, b),
        rank_le(b, c),
    ensures
        rank_le(a, c),
{
    if a.score == b.score && b.score == c.score && a.text@.len() == b.text@.len() && b.text@.len()
        == c.text@.len() {
        if lex_lt(a.text@, b.text@) && lex_lt(b.text@, c.text@) {
            lemma_lex_trans(a.text@, b.text@, c.text@);
        }
        lemma_lex_asym(a.text@, b.text@);
        lemma_lex_asym(b.text@, c.text@);
    }
}

/// Three-way comparison deciding the rank order.
pub fn rank_le_exec(a: &MatchedItem, b: &MatchedItem) -> (r: bool)
    ensures
        r == rank_le(*a, *b),
{
    if a.score != b.score {
        return a.score > b.score;
    }
    if a.text.len() != b.text.len() {
        return a.text.len() < b.text.len();
    }
    let c = lex_compare(&a.text, &b.text);
    proof {
        if c == 0 {
            crate::chars::lemma_lex_irrefl(a.text@);
        }
        if c == 1 {
            lemma_lex_asym(a.text@, b.text@);
            if a.text@ == b.text@ {
                crate::chars::lemma_lex_irrefl(a.text@);
            }
        }
    }
    if c == -1 {
        true
    } else if c == 0 {
        a.index <= b.index
    } else {
        false
    }
}

/// The whole sequence respects the rank order.
pub open spec fn sorted(s: Seq<MatchedItem>) -> bool {
    forall|i: int, j: int| 0 <= i < j < s.len() ==> rank_le(#[trigger] s[i], #[trigger] s[j])
}

/// Law (ordering invariant): in a well-formed ranked result set the
/// scores are non-increasing along the sequence.
pub proof fn lemma_ranked_scores_nonincreasing(s: Seq<MatchedItem>)
    requires
        sorted(s),
    ensures
        forall|i: int, j: int|
            0 <= i < j < s.len() ==> (#[trigger] s[j]).score <= (#[trigger] s[i]).score,
{
}

/// The ranked result set.
pub struct RankedResultSet {
    items: Vec<MatchedItem>,
}

impl RankedResultSet {
    /// The entries, best first.
    pub closed spec fn seq(self) -> Seq<MatchedItem> {
        self.items@
    }

    /// The entries respect the rank order.
    pub open spec fn wf(self) -> bool {
        sorted(self.seq())
    }

    /// An empty result set.
    pub fn new() -> (r: RankedResultSet)
        ensures
            r.wf(),
            r.seq() =~= Seq::<MatchedItem>::empty(),
    {
        RankedResultSet { items: Vec::new() }
    }

    /// Number of entries.
    pub fn len(&self) -> (r: usize)
        ensures
            r == self.seq().len(),
    {
        self.items.len()
    }

    /// Read the entry at rank `i` (0 is the best match).
    pub fn get(&self, i: usize) -> (r: &MatchedItem)
        requires
            i < self.seq().len(),
        ensures
            *r == self.seq()[i as int],
    {
        &self.items[i]
    }

    /// Place one entry, preserving the rank order of everything already
    /// placed; the new sequence is the old one with the entry inserted.
    pub fn insert(&mut self, item: MatchedItem)
        requires
            old(self).wf(),
            old(self).seq().len() < usize::MAX,
        ensures
            final(self).wf(),
            exists|pos: int|
                0 <= pos <= old(self).seq().len() && final(self).seq() =~= old(
                    self,
                ).seq().insert(pos, item),
    {
        let ghost s0 = self.items@;
        let mut pos: usize = 0;
        loop
            invariant_except_break
                self.items@ == s0,
                old(self).items@ == s0,
                sorted(s0),
                0 <= pos <= s0.len(),
                forall|j: int| 0 <= j < pos ==> rank_le(#[trigger] s0[j], item),
            ensures
                self.items@ == s0,
                old(self).items@ == s0,
                sorted(s0),
                0 <= pos <= s0.len(),
                forall|j: int| 0 <= j < pos ==> rank_le(#[trigger] s0[j], item),
                pos < s0.len() ==> !rank_le(s0[pos as int], item),
            decreases s0.len() - pos,
        {
            if pos == self.items.len() {
                break ;
            }
            if !rank_le_exec(&self.items[pos], &item) {
                break ;
            }
            pos = pos + 1;
        }
        self.items.insert(pos, item);
        proof {
            let s1 = self.items@;
            assert(s1 == s0.insert(pos as int, item));
            if (pos as int) < s0.len() {
                lemma_rank_le_total(s0[pos as int], item);
            }
            assert forall|i: int, j: int|
                0 <= i < j < s1.len() implies rank_le(#[trigger] s1[i], #[trigger] s1[j]) by {
                if i < pos && j == pos {
                    assert(s1[i] == s0[i]);
                } else if i < pos && j > pos {
                    assert(s1[i] == s0[i] && s1[j] == s0[j - 1]);
                } else if i == pos && j > pos {
                    assert(s1[j] == s0[j - 1]);
                    assert(rank_le(item, s0[pos as int]));
                    if j - 1 > pos {
                        assert(rank_le(s0[pos as int], s0[j - 1]));
                        lemma_rank_le_trans(item, s0[pos as int], s0[j - 1]);
                    }
                } else if i > pos {
                    assert(s1[i] == s0[i - 1] && s1[j] == s0[j - 1]);
                }
            }
        }
    }

    /// Discard every entry at once.
    pub fn clear(&mut self)
        ensures
            final(self).wf(),
            final(self).seq() =~= Seq::<MatchedItem>::empty(),
    {
        self.items.clear();
    }
}

} // verus!
