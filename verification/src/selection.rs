//! The selection set: candidate indices marked by the user.
//!
//! Selection is keyed by candidate identity (pool index), not by list
//! position, so it survives re-ranking. Only explicit toggles mutate it.
//! Entries are kept in selection order for output.

use vstd::prelude::*;

verus! {

/// What a toggle leaves behind: flip on a plain toggle, or the forced
/// value regardless of the prior state.
pub open spec fn toggle_target(was: bool, force: Option<bool>) -> bool {
    match force {
        Option::None => !was,
        Option::Some(b) => b,
    }
}

/// Law (toggle round trip): toggling twice restores the original
/// membership; a forced toggle sets the requested state regardless of
/// the prior one.
pub proof fn lemma_toggle_involution(was: bool)
    ensures
        toggle_target(toggle_target(was, Option::None), Option::None) == was,
        toggle_target(was, Option::Some(true)),
        !toggle_target(was, Option::Some(false)),
{
}

fn index_of(v: &Vec<usize>, x: usize) -> (r: usize)
    requires
        v@.contains(x),
    ensures
        r < v@.len(),
        v@[r as int] == x,
        forall|j: int| 0 <= j < r ==> v@[j] != x,
{
    let mut i: usize = 0;
    while i < v.len()
        invariant
            0 <= i <= v@.len(),
            v@.contains(x),
            forall|j: int| 0 <= j < i ==> v@[j] != x,
        decreases v@.len() - i,
    {
        if v[i] == x {
            return i;
        }
        i = i + 1;
    }
    proof {
        let w = choose|w: int| 0 <= w < v@.len() && v@[w] == x;
        assert(false);
    }
    0
}

/// The set of selected candidate indices, in selection order.
pub struct SelectionSet {
    items: Vec<usize>,
}

impl SelectionSet {
    /// The selected indices in selection order.
    pub closed spec fn seq(self) -> Seq<usize> {
        self.items@
    }

    /// An index is selected when it occurs in the order.
    pub open spec fn has(self, x: usize) -> bool {
        self.seq().contains(x)
    }

    /// No index is selected twice.
    pub open spec fn distinct(s: Seq<usize>) -> bool {
        forall|i: int, j: int| 0 <= i < j < s.len() ==> s[i] != s[j]
    }

    /// Well-formed: distinct entries.
    pub open spec fn wf(self) -> bool {
        Self::distinct(self.seq())
    }

    /// An empty selection.
    pub fn new() -> (r: SelectionSet)
        ensures
            r.wf(),
            r.seq() =~= Seq::<usize>::empty(),
    {
        SelectionSet { items: Vec::new() }
    }

    /// How many candidates are selected.
    pub fn len(&self) -> (r: usize)
        ensures
            r == self.seq().len(),
    {
        self.items.len()
    }

    /// The selected index at selection-order position `i`.
    pub fn get(&self, i: usize) -> (r: usize)
        requires
            i < self.seq().len(),
        ensures
            r == self.seq()[i as int],
    {
        self.items[i]
    }

    /// Whether `x` is selected.
    pub fn contains(&self, x: usize) -> (r: bool)
        ensures
            r == self.has(x),
    {
        let mut i: usize = 0;
        while i < self.items.len()
            invariant
                0 <= i <= self.items@.len(),
                forall|j: int| 0 <= j < i ==> self.items@[j] != x,
            decreases self.items@.len() - i,
        {
            if self.items[i] == x {
                return true;
            }
            i = i + 1;
        }
        false
    }

    /// Toggle membership of `x`: flip it, or force it to the given
    /// value. A newly selected index goes to the end of the selection
    /// order; other entries keep their membership and relative order.
    pub fn toggle(&mut self, x: usize, force: Option<bool>)
        requires
            old(self).wf(),
            old(self).seq().len() < usize::MAX,
        ensures
            final(self).wf(),
            final(self).has(x) == toggle_target(old(self).has(x), force),
            forall|y: usize| y != x ==> final(self).has(y) == old(self).has(y),
            final(self).has(x) == old(self).has(x) ==> final(self).seq() == old(self).seq(),
            !old(self).has(x) && final(self).has(x) ==> final(self).seq() =~= old(
                self,
            ).seq().push(x),
            old(self).has(x) && !final(self).has(x) ==> exists|i: int|
                0 <= i < old(self).seq().len() && old(self).seq()[i] == x && final(self).seq()
                    =~= old(self).seq().remove(i),
    {
        let ghost s0 = self.items@;
        let was = self.contains(x);
        let want = match force {
            Option::None => !was,
            Option::Some(b) => b,
        };
        if want == was {
            return ;
        }
        if want {
            self.items.push(x);
            proof {
                assert(self.items@ =~= s0.push(x));
                assert(self.items@[s0.len() as int] == x);
                assert(self.has(x));
                assert forall|i: int, j: int|
                    0 <= i < j < self.items@.len() implies self.items@[i] != self.items@[j] by {
                    if j < s0.len() {
                        assert(self.items@[i] == s0[i] && self.items@[j] == s0[j]);
                    } else {
                        assert(self.items@[i] == s0[i]);
                        assert(!s0.contains(x));
                    }
                }
                assert forall|y: usize| y != x implies final(self).has(y) == old(self).has(
                    y,
                ) by {
                    if s0.push(x).contains(y) {
                        let i = choose|i: int| 0 <= i < s0.push(x).len() && s0.push(x)[i] == y;
                        assert(s0[i] == y);
                    }
                    if s0.contains(y) {
                        let i = choose|i: int| 0 <= i < s0.len() && s0[i] == y;
                        assert(s0.push(x)[i] == y);
                    }
                }
            }
        } else {
            let i = index_of(&self.items, x);
            let _ = self.items.remove(i);
            proof {
                let s1 = self.items@;
                assert(s1 =~= s0.remove(i as int));
                assert(Self::distinct(s0));
                assert forall|a: int, b: int| 0 <= a < b < s1.len() implies s1[a] != s1[b] by {
                    assert(s1[a] == if a < i as int {
                        s0[a]
                    } else {
                        s0[a + 1]
                    });
                    assert(s1[b] == if b < i as int {
                        s0[b]
                    } else {
                        s0[b + 1]
                    });
                }
                assert forall|y: usize| s1.contains(y) implies s0.contains(y) by {
                    let a = choose|a: int| 0 <= a < s1.len() && s1[a] == y;
                    if a < i as int {
                        assert(s0[a] == y);
                    } else {
                        assert(s0[a + 1] == y);
                    }
                }
                assert forall|y: usize| y != x && s0.contains(y) implies s1.contains(y) by {
                    let a = choose|a: int| 0 <= a < s0.len() && s0[a] == y;
                    if a < i as int {
                        assert(s1[a] == y);
                    } else {
                        assert(a != i as int);
                        assert(s1[a - 1] == y);
                    }
                }
                assert(!s1.contains(x)) by {
                    if s1.contains(x) {
                        let a = choose|a: int| 0 <= a < s1.len() && s1[a] == x;
                        if a < i as int {
                            assert(s0[a] == x);
                            assert(false);
                        } else {
                            assert(s0[a + 1] == x);
                            assert(s0[i as int] == x);
                            assert(false);
                        }
                    }
                }
            }
        }
    }
}

} // verus!
