//! Parsing of the key-binding specification.
//!
//! A bind spec is a comma-separated list of `key:action` entries; an
//! entry without a colon is malformed and rejected, a fatal startup
//! error. Resolving the key and action names against the terminal's key
//! vocabulary is the key resolver's job, outside the library.

use vstd::prelude::*;

verus! {

/// Index of the first occurrence of `c` in `s`, or `s.len()` when `c`
/// does not occur.
pub open spec fn first_at(s: Seq<char>, c: char) -> int
    decreases s.len(),
{
    if s.len() == 0 {
        0
    } else if s[0] == c {
        0
    } else {
        1 + first_at(s.skip(1), c)
    }
}

pub proof fn lemma_first_at(s: Seq<char>, c: char)
    ensures
        0 <= first_at(s, c) <= s.len(),
        forall|j: int| 0 <= j < first_at(s, c) ==> s[j] != c,
        first_at(s, c) < s.len() ==> s[first_at(s, c)] == c,
    decreases s.len(),
{
    if s.len() > 0 && s[0] != c {
        lemma_first_at(s.skip(1), c);
        let k = first_at(s, c);
        assert forall|j: int| 0 <= j < k implies s[j] != c by {
            if j > 0 {
                assert(s.skip(1)[j - 1] == s[j]);
            }
        }
        if k < s.len() {
            assert(s.skip(1)[k - 1] == s[k]);
        }
    }
}

/// The pieces of `s` between occurrences of `c`: `n` separators yield
/// `n + 1` pieces, none holding `c`.
pub open spec fn split_at(s: Seq<char>, c: char) -> Seq<Seq<char>>
    decreases s.len(),
    via split_at_decreases
{
    let k = first_at(s, c);
    if k >= s.len() {
        seq![s]
    } else {
        seq![s.take(k)] + split_at(s.skip(k + 1), c)
    }
}

#[via_fn]
proof fn split_at_decreases(s: Seq<char>, c: char) {
    lemma_first_at(s, c);
}

fn copy_range(v: &Vec<char>, from: usize, to: usize) -> (r: Vec<char>)
    requires
        from <= to <= v@.len(),
    ensures
        r@ == v@.subrange(from as int, to as int),
{
    let mut r: Vec<char> = Vec::new();
    let mut i = from;
    while i < to
        invariant
            from <= i <= to <= v@.len(),
            r@ =~= v@.subrange(from as int, i as int),
        decreases to - i,
    {
        r.push(v[i]);
        proof {
            assert(r@ =~= v@.subrange(from as int, i as int + 1));
        }
        i = i + 1;
    }
    r
}

/// Split `e` at its first occurrence of `sep` into the parts before and
/// after it; `None` when `sep` does not occur.
fn split_first(e: &Vec<char>, sep: char) -> (r: Option<(Vec<char>, Vec<char>)>)
    ensures
        match r {
            Some(parts) => {
                let i = first_at(e@, sep);
                &&& i < e@.len()
                &&& parts.0@ == e@.take(i)
                &&& parts.1@ == e@.skip(i + 1)
            },
            None => first_at(e@, sep) >= e@.len(),
        },
{
    let mut i: usize = 0;
    while i < e.len()
        invariant
            0 <= i <= e@.len(),
            forall|j: int| 0 <= j < i ==> e@[j] != sep,
        decreases e@.len() - i,
    {
        if e[i] == sep {
            proof {
                lemma_first_at(e@, sep);
                assert(first_at(e@, sep) == i as int);
            }
            let before = copy_range(e, 0, i);
            let after = copy_range(e, i + 1, e.len());
            proof {
                assert(before@ == e@.take(i as int));
                assert(after@ == e@.skip(i as int + 1));
            }
            return Some((before, after));
        }
        i = i + 1;
    }
    proof {
        lemma_first_at(e@, sep);
    }
    None
}

/// The views of a list of character buffers.
pub open spec fn views(v: Seq<Vec<char>>) -> Seq<Seq<char>> {
    v.map_values(|x: Vec<char>| x@)
}

/// Split `s` into the pieces between occurrences of `sep`.
fn split_entries(s: &Vec<char>, sep: char) -> (r: Vec<Vec<char>>)
    ensures
        views(r@) == split_at(s@, sep),
{
    let mut done: Vec<Vec<char>> = Vec::new();
    let mut cur: Vec<char> = Vec::new();
    let mut st: usize = 0;
    let mut i: usize = 0;
    proof {
        assert(s@.skip(0) =~= s@);
        assert(views(done@) =~= Seq::<Seq<char>>::empty());
        assert(views(done@) + split_at(s@, sep) =~= split_at(s@, sep));
    }
    while i < s.len()
        invariant
            0 <= st <= i <= s@.len(),
            forall|j: int| st <= j < i ==> s@[j] != sep,
            cur@ =~= s@.subrange(st as int, i as int),
            split_at(s@, sep) =~= views(done@) + split_at(s@.skip(st as int), sep),
        decreases s@.len() - i,
    {
        if s[i] == sep {
            let ghost rest = s@.skip(st as int);
            proof {
                lemma_first_at(rest, sep);
                assert forall|j: int| 0 <= j < i - st implies rest[j] != sep by {
                    assert(rest[j] == s@[j + st]);
                }
                assert(rest[i - st] == s@[i as int]);
                assert(first_at(rest, sep) == i - st);
                assert(rest.take(i - st) =~= s@.subrange(st as int, i as int));
                assert(rest.skip(i - st + 1) =~= s@.skip(i as int + 1));
            }
            done.push(cur);
            cur = Vec::new();
            proof {
                assert(views(done@) =~= views(done@.drop_last()).push(s@.subrange(
                    st as int,
                    i as int,
                )));
                assert(split_at(s@, sep) =~= views(done@) + split_at(s@.skip(i as int + 1), sep));
            }
            st = i + 1;
        } else {
            cur.push(s[i]);
            proof {
                assert(cur@ =~= s@.subrange(st as int, i as int + 1));
            }
        }
        i = i + 1;
    }
    let ghost rest = s@.skip(st as int);
    proof {
        lemma_first_at(rest, sep);
        assert forall|j: int| 0 <= j < rest.len() implies rest[j] != sep by {
            assert(rest[j] == s@[j + st]);
        }
        assert(first_at(rest, sep) == rest.len());
        assert(rest =~= s@.subrange(st as int, s@.len() as int));
    }
    done.push(cur);
    proof {
        assert(views(done@) =~= views(done@.drop_last()).push(rest));
        assert(split_at(s@, sep) =~= views(done@.drop_last()) + seq![rest]);
        assert(views(done@) =~= views(done@.drop_last()) + seq![rest]);
    }
    done
}

/// Split a bind spec into its `key:action` pairs: the entries between
/// commas, each split at its first colon. `Err(k)` reports the first
/// malformed entry: the `k`-th piece holds no colon.
pub fn parse_bind_spec(s: &Vec<char>) -> (r: Result<Vec<(Vec<char>, Vec<char>)>, usize>)
    ensures
        ({
            let entries = split_at(s@, ',');
            match r {
                Ok(pairs) => {
                    &&& pairs@.len() == entries.len()
                    &&& forall|k: int|
                        0 <= k < entries.len() ==> {
                            let e = #[trigger] entries[k];
                            let i = first_at(e, ':');
                            &&& i < e.len()
                            &&& pairs@[k].0@ == e.take(i)
                            &&& pairs@[k].1@ == e.skip(i + 1)
                        }
                },
                Err(k) => {
                    &&& (k as int) < entries.len()
                    &&& first_at(entries[k as int], ':') >= entries[k as int].len()
                },
            }
        }),
{
    let entries = split_entries(s, ',');
    let ghost es = split_at(s@, ',');
    let mut pairs: Vec<(Vec<char>, Vec<char>)> = Vec::new();
    let mut k: usize = 0;
    while k < entries.len()
        invariant
            views(entries@) == es,
            es == split_at(s@, ','),
            0 <= k <= entries@.len(),
            pairs@.len() == k,
            forall|j: int|
                0 <= j < k ==> {
                    let e = #[trigger] es[j];
                    let i = first_at(e, ':');
                    &&& i < e.len()
                    &&& pairs@[j].0@ == e.take(i)
                    &&& pairs@[j].1@ == e.skip(i + 1)
                },
        decreases entries@.len() - k,
    {
        proof {
            assert(entries@[k as int]@ == es[k as int]);
        }
        match split_first(&entries[k], ':') {
            Some(pair) => {
                pairs.push(pair);
            },
            None => {
                return Err(k);
            },
        }
        k = k + 1;
    }
    Ok(pairs)
}

} // verus!
