//! The fuzzy scoring engine.
//!
//! A query matches a candidate when its characters occur in order as a
//! subsequence of the candidate text ("smart case": matching is
//! case-insensitive unless the query holds an upper-case letter). A
//! matched alignment is scored: one point per matched character, +2 when
//! the character sits on a word boundary, +3 when it is contiguous with
//! the previously matched character, and -1 per unmatched character
//! skipped between two consecutive matched characters. Among all valid
//! alignments, the engine returns one of maximal score.

use vstd::prelude::*;
use crate::chars::chars_match;
use crate::chars::is_word_char;
use crate::chars::query_is_sensitive;
use crate::chars::exec_chars_match;
use crate::chars::exec_is_word_char;
use crate::chars::exec_query_is_sensitive;

verus! {

/// The longest candidate or query text the engine accepts; keeps every
/// score computation far inside `i64` range.
pub const MAX_TEXT_LEN: usize = 0x1000_0000;

/// The characters `q[qi..]` occur in order within `t[ti..]`.
pub open spec fn subseq_at(q: Seq<char>, t: Seq<char>, qi: int, ti: int, s: bool) -> bool
    decreases t.len() - ti,
{
    if qi >= q.len() {
        true
    } else if ti >= t.len() {
        false
    } else {
        (chars_match(q[qi], t[ti], s) && subseq_at(q, t, qi + 1, ti + 1, s)) || subseq_at(
            q,
            t,
            qi,
            ti + 1,
            s,
        )
    }
}

/// The query is a subsequence of the text under the given case rule.
pub open spec fn is_subsequence(q: Seq<char>, t: Seq<char>, s: bool) -> bool {
    subseq_at(q, t, 0, 0, s)
}

/// A matched character at text position `pos` starts a word when it is at
/// the start of the text or follows a non-word character.
pub open spec fn word_boundary(t: Seq<char>, pos: int) -> bool {
    pos == 0 || !is_word_char(t[pos - 1])
}

/// Score contributed by one matched character at text position `pos`,
/// where `last` is the position of the previously matched character, or
/// -1 when `pos` is the first matched character.
pub open spec fn char_score(t: Seq<char>, pos: int, last: int) -> int {
    1 + (if word_boundary(t, pos) {
        2int
    } else {
        0int
    }) + (if last >= 0 && pos == last + 1 {
        3int
    } else {
        0int
    }) - (if last >= 0 {
        pos - last - 1
    } else {
        0int
    })
}

/// The larger of two optional scores; `None` means no alignment exists.
pub open spec fn opt_max(a: Option<int>, b: Option<int>) -> Option<int> {
    match (a, b) {
        (Some(x), Some(y)) => Some(
            if x >= y {
                x
            } else {
                y
            },
        ),
        (Some(x), None) => a,
        (None, Some(y)) => b,
        (None, None) => None,
    }
}

/// Best achievable score matching `q[qi..]` within `t[ti..]`, the
/// previously matched position being `last` (-1 for none). `None` when
/// no alignment exists.
pub open spec fn best_from(q: Seq<char>, t: Seq<char>, qi: int, ti: int, last: int, s: bool) -> Option<
    int,
>
    decreases t.len() - ti,
{
    if qi >= q.len() {
        Some(0)
    } else if ti >= t.len() {
        None
    } else {
        let skip = best_from(q, t, qi, ti + 1, last, s);
        if chars_match(q[qi], t[ti], s) {
            let take = match best_from(q, t, qi + 1, ti + 1, ti, s) {
                Some(rest) => Some(char_score(t, ti, last) + rest),
                None => None,
            };
            opt_max(take, skip)
        } else {
            skip
        }
    }
}

/// Best achievable score of the whole query against the whole text.
pub open spec fn best_score(q: Seq<char>, t: Seq<char>, s: bool) -> Option<int> {
    best_from(q, t, 0, 0, -1, s)
}

/// `p` aligns `q[qi..]` within `t`, all positions at least `lo`, strictly
/// increasing, each matching its query character.
pub open spec fn valid_tail(q: Seq<char>, t: Seq<char>, qi: int, lo: int, p: Seq<usize>, s: bool) -> bool
    decreases p.len(),
{
    if p.len() != q.len() - qi {
        false
    } else if p.len() == 0 {
        true
    } else {
        &&& lo <= p[0] < t.len()
        &&& chars_match(q[qi], t[p[0] as int], s)
        &&& valid_tail(q, t, qi + 1, p[0] + 1, p.skip(1), s)
    }
}

/// `p` is a complete alignment of `q` within `t`.
pub open spec fn valid_alignment(q: Seq<char>, t: Seq<char>, p: Seq<usize>, s: bool) -> bool {
    valid_tail(q, t, 0, 0, p, s)
}

/// Total score of the alignment tail `p`, the previously matched
/// position being `last` (-1 for none).
pub open spec fn align_score_from(t: Seq<char>, p: Seq<usize>, last: int) -> int
    decreases p.len(),
{
    if p.len() == 0 {
        0
    } else {
        char_score(t, p[0] as int, last) + align_score_from(t, p.skip(1), p[0] as int)
    }
}

/// Total score of a complete alignment.
pub open spec fn align_score(t: Seq<char>, p: Seq<usize>) -> int {
    align_score_from(t, p, -1)
}

/// An alignment exists exactly when the query characters occur in order
/// within the text: the match predicate accepts every subsequence query
/// and only those.
pub proof fn lemma_best_some_iff_subseq(q: Seq<char>, t: Seq<char>, qi: int, ti: int, last: int, s: bool)
    requires
        0 <= qi,
        0 <= ti <= t.len(),
    ensures
        best_from(q, t, qi, ti, last, s) is Some <==> subseq_at(q, t, qi, ti, s),
    decreases t.len() - ti,
{
    if qi >= q.len() {
    } else if ti >= t.len() {
    } else {
        lemma_best_some_iff_subseq(q, t, qi, ti + 1, last, s);
        if chars_match(q[qi], t[ti], s) {
            lemma_best_some_iff_subseq(q, t, qi + 1, ti + 1, ti, s);
        }
    }
}

/// Any achievable score is bounded: at least `last + 1 - t.len()` and at
/// most six points per remaining query character.
pub proof fn lemma_best_bounds(q: Seq<char>, t: Seq<char>, qi: int, ti: int, last: int, s: bool)
    requires
        0 <= qi <= q.len(),
        0 <= ti <= t.len(),
        -1 <= last < ti,
    ensures
        match best_from(q, t, qi, ti, last, s) {
            Some(v) => last + 1 - t.len() <= v <= 6 * (q.len() - qi),
            None => true,
        },
    decreases t.len() - ti,
{
    if qi >= q.len() {
    } else if ti >= t.len() {
    } else {
        lemma_best_bounds(q, t, qi, ti + 1, last, s);
        if chars_match(q[qi], t[ti], s) {
            lemma_best_bounds(q, t, qi + 1, ti + 1, ti, s);
        }
    }
}

/// No valid alignment scores more than `best_from`: the engine's chosen
/// score is a maximum over all alignments.
pub proof fn lemma_align_le_best(
    q: Seq<char>,
    t: Seq<char>,
    qi: int,
    ti: int,
    last: int,
    s: bool,
    p: Seq<usize>,
)
    requires
        0 <= qi <= q.len(),
        0 <= ti <= t.len(),
        -1 <= last < ti,
        valid_tail(q, t, qi, ti, p, s),
    ensures
        best_from(q, t, qi, ti, last, s) is Some,
        align_score_from(t, p, last) <= best_from(q, t, qi, ti, last, s)->Some_0,
    decreases t.len() - ti,
{
    if p.len() == 0 {
        assert(qi == q.len());
    } else {
        assert(qi < q.len());
        assert(ti <= p[0] < t.len());
        if p[0] == ti {
            lemma_align_le_best(q, t, qi + 1, ti + 1, ti, s, p.skip(1));
        } else {
            assert(valid_tail(q, t, qi, ti + 1, p, s));
            lemma_align_le_best(q, t, qi, ti + 1, last, s, p);
        }
    }
}

proof fn lemma_strict_mono(p: Seq<usize>, a: int, b: int)
    requires
        forall|j: int| 0 <= j < p.len() - 1 ==> p[j] < #[trigger] p[j + 1],
        0 <= a < b < p.len(),
    ensures
        p[a] < p[b],
    decreases b - a,
{
    if a + 1 < b {
        lemma_strict_mono(p, a + 1, b);
        assert(p[a] < p[a + 1]);
    } else {
        assert(p[a] < p[a + 1]);
    }
}

proof fn lemma_score_split(t: Seq<char>, p: Seq<usize>, last: int, k: int)
    requires
        1 <= k <= p.len(),
    ensures
        align_score_from(t, p, last) == align_score_from(t, p.take(k), last) + align_score_from(
            t,
            p.skip(k),
            p[k - 1] as int,
        ),
    decreases k,
{
    assert(align_score_from(t, p, last) == char_score(t, p[0] as int, last) + align_score_from(
        t,
        p.skip(1),
        p[0] as int,
    ));
    assert(p.take(k)[0] == p[0]);
    assert(align_score_from(t, p.take(k), last) == char_score(t, p[0] as int, last)
        + align_score_from(t, p.take(k).skip(1), p[0] as int));
    if k == 1 {
        assert(p.take(1).skip(1) =~= Seq::<usize>::empty());
        assert(align_score_from(t, p.take(1).skip(1), p[0] as int) == 0);
    } else {
        lemma_score_split(t, p.skip(1), p[0] as int, k - 1);
        assert(p.skip(1).take(k - 1) =~= p.take(k).skip(1));
        assert(p.skip(1).skip(k - 1) =~= p.skip(k));
        assert(p.skip(1)[k - 2] == p[k - 1]);
    }
}

proof fn lemma_score_shift(
    t1: Seq<char>,
    t2: Seq<char>,
    p1: Seq<usize>,
    p2: Seq<usize>,
    last1: int,
    last2: int,
)
    requires
        p1.len() == p2.len(),
        forall|j: int| 0 <= j < p1.len() ==> p2[j] as int == p1[j] as int + (last2 - last1),
        forall|j: int|
            0 <= j < p1.len() ==> (word_boundary(t2, p2[j] as int) <==> word_boundary(
                t1,
                p1[j] as int,
            )),
        last1 >= 0 <==> last2 >= 0,
    ensures
        align_score_from(t2, p2, last2) == align_score_from(t1, p1, last1),
    decreases p1.len(),
{
    if p1.len() > 0 {
        assert(char_score(t2, p2[0] as int, last2) == char_score(t1, p1[0] as int, last1));
        assert forall|j: int| 0 <= j < p1.skip(1).len() implies p2.skip(1)[j] as int == p1.skip(
            1,
        )[j] as int + (p2[0] as int - p1[0] as int) by {
            assert(p1.skip(1)[j] == p1[j + 1]);
            assert(p2.skip(1)[j] == p2[j + 1]);
        }
        assert forall|j: int|
            0 <= j < p1.skip(1).len() implies (word_boundary(t2, p2.skip(1)[j] as int)
            <==> word_boundary(t1, p1.skip(1)[j] as int)) by {
            assert(p1.skip(1)[j] == p1[j + 1]);
            assert(p2.skip(1)[j] == p2[j + 1]);
        }
        lemma_score_shift(t1, t2, p1.skip(1), p2.skip(1), p1[0] as int, p2[0] as int);
    }
}

/// Law: inserting one extra unmatched character strictly between two
/// adjacent matched characters of an alignment, keeping the alignment
/// otherwise identical, never increases the alignment's score.
pub proof fn lemma_gap_insertion_monotone(t: Seq<char>, p: Seq<usize>, i: int, c: char)
    requires
        0 <= i,
        i + 1 < p.len(),
        t.len() <= usize::MAX,
        forall|j: int| 0 <= j < p.len() ==> p[j] < t.len(),
        forall|j: int| 0 <= j < p.len() - 1 ==> p[j] < #[trigger] p[j + 1],
        p[i + 1] == p[i] + 1,
    ensures
        ({
            let ins = p[i] as int + 1;
            let t2 = t.take(ins) + seq![c] + t.skip(ins);
            let p2 = Seq::new(
                p.len(),
                |j: int|
                    if j <= i {
                        p[j]
                    } else {
                        (p[j] + 1) as usize
                    },
            );
            align_score(t2, p2) <= align_score(t, p)
        }),
{
    let ins = p[i] as int + 1;
    let t2 = t.take(ins) + seq![c] + t.skip(ins);
    let p2 = Seq::new(
        p.len(),
        |j: int|
            if j <= i {
                p[j]
            } else {
                (p[j] + 1) as usize
            },
    );
    assert(t2.len() == t.len() + 1);
    assert forall|k: int| 0 <= k < ins implies t2[k] == t[k] by {}
    assert(t2[ins] == c);
    assert forall|k: int| ins < k < t2.len() implies t2[k] == t[k - 1] by {}
    assert forall|a: int, b: int| 0 <= a < b < p.len() implies p[a] < p[b] by {
        lemma_strict_mono(p, a, b);
    }
    // split both scores before and after position i
    lemma_score_split(t, p, -1, i + 1);
    lemma_score_split(t2, p2, -1, i + 1);
    assert(p2[i] == p[i]);
    // the prefixes score equally: same positions, same surrounding text
    assert(p2.take(i + 1) =~= p.take(i + 1));
    assert forall|j: int|
        0 <= j < p.take(i + 1).len() implies (word_boundary(t2, (#[trigger] p2.take(i + 1)[j]) as int)
        <==> word_boundary(t, p.take(i + 1)[j] as int)) by {
        assert(p.take(i + 1)[j] == p[j]);
        if p[j] > 0 {
            assert(t2[p[j] as int - 1] == t[p[j] as int - 1]);
        }
    }
    lemma_score_shift(t, t2, p.take(i + 1), p2.take(i + 1), -1, -1);
    // unfold one step of each suffix
    let suf1 = p.skip(i + 1);
    let suf2 = p2.skip(i + 1);
    assert(suf1[0] == p[i + 1]);
    assert(suf2[0] == p2[i + 1]);
    assert(p2[i + 1] as int == ins + 1);
    assert(suf1.skip(1) =~= p.skip(i + 2));
    assert(suf2.skip(1) =~= p2.skip(i + 2));
    assert(align_score_from(t, suf1, p[i] as int) == char_score(t, ins, p[i] as int)
        + align_score_from(t, p.skip(i + 2), ins));
    assert(align_score_from(t2, suf2, p[i] as int) == char_score(t2, ins + 1, p[i] as int)
        + align_score_from(t2, p2.skip(i + 2), ins + 1));
    // the inserted character breaks contiguity and is itself skipped
    assert(word_boundary(t, ins) ==> !is_word_char(t[p[i] as int]));
    assert(char_score(t, ins, p[i] as int) >= 4);
    assert(char_score(t2, ins + 1, p[i] as int) <= 2);
    // the shifted tails score equally
    assert forall|j: int| 0 <= j < p.skip(i + 2).len() implies (#[trigger] p2.skip(i + 2)[j]) as int
        == p.skip(i + 2)[j] as int + 1 by {
        assert(p.skip(i + 2)[j] == p[j + i + 2]);
        assert(p2.skip(i + 2)[j] == p2[j + i + 2]);
    }
    assert forall|j: int|
        0 <= j < p.skip(i + 2).len() implies (word_boundary(t2, (#[trigger] p2.skip(i + 2)[j]) as int)
        <==> word_boundary(t, p.skip(i + 2)[j] as int)) by {
        assert(p.skip(i + 2)[j] == p[j + i + 2]);
        assert(p2.skip(i + 2)[j] == p2[j + i + 2]);
        assert(p[j + i + 2] > p[i + 1]);
        assert(t2[p[j + i + 2] as int] == t[p[j + i + 2] as int - 1]);
    }
    lemma_score_shift(t, t2, p.skip(i + 2), p2.skip(i + 2), ins, ins + 1);
}

fn search(q: &Vec<char>, t: &Vec<char>, qi: usize, ti: usize, last: i64, sensitive: bool) -> (r:
    Option<(i64, Vec<usize>)>)
    requires
        qi <= q@.len() <= MAX_TEXT_LEN,
        ti <= t@.len() <= MAX_TEXT_LEN,
        -1 <= last as int,
        (last as int) < (ti as int),
    ensures
        match r {
            None => best_from(q@, t@, qi as int, ti as int, last as int, sensitive) is None,
            Some((sc, p)) => {
                &&& best_from(q@, t@, qi as int, ti as int, last as int, sensitive) == Some(
                    sc as int,
                )
                &&& valid_tail(q@, t@, qi as int, ti as int, p@, sensitive)
                &&& align_score_from(t@, p@, last as int) == sc as int
            },
        },
    decreases t@.len() - ti,
{
    if qi == q.len() {
        let empty: Vec<usize> = Vec::new();
        return Some((0, empty));
    }
    if ti == t.len() {
        return None;
    }
    let skip_r = search(q, t, qi, ti + 1, last, sensitive);
    if exec_chars_match(q[qi], t[ti], sensitive) {
        let take_sub = search(q, t, qi + 1, ti + 1, ti as i64, sensitive);
        match take_sub {
            None => skip_r,
            Some((rsc, rp)) => {
                let mut rp = rp;
                proof {
                    lemma_best_bounds(
                        q@,
                        t@,
                        qi as int + 1,
                        ti as int + 1,
                        ti as int,
                        sensitive,
                    );
                }
                let wb: i64 = if ti == 0 {
                    2
                } else if !exec_is_word_char(t[ti - 1]) {
                    2
                } else {
                    0
                };
                let contig: i64 = if last >= 0 && (ti as i64) == last + 1 {
                    3
                } else {
                    0
                };
                let gap: i64 = if last >= 0 {
                    (ti as i64) - last - 1
                } else {
                    0
                };
                let here: i64 = 1 + wb + contig - gap + rsc;
                proof {
                    assert(here as int == char_score(t@, ti as int, last as int) + rsc as int);
                }
                let ghost rp0 = rp@;
                match skip_r {
                    Some((ssc, sp)) => {
                        if here >= ssc {
                            rp.insert(0, ti);
                            proof {
                                assert(rp@.skip(1) =~= rp0);
                                assert(rp@[0] == ti);
                            }
                            Some((here, rp))
                        } else {
                            Some((ssc, sp))
                        }
                    },
                    None => {
                        rp.insert(0, ti);
                        proof {
                            assert(rp@.skip(1) =~= rp0);
                            assert(rp@[0] == ti);
                        }
                        Some((here, rp))
                    },
                }
            },
        }
    } else {
        skip_r
    }
}

/// Match a query against a candidate text. Returns `None` exactly when
/// the query is not a subsequence of the text under the smart-case rule;
/// otherwise returns a maximal score together with the matched text
/// positions achieving it.
pub fn fuzzy_match(query: &Vec<char>, text: &Vec<char>) -> (r: Option<(i64, Vec<usize>)>)
    requires
        query@.len() <= MAX_TEXT_LEN,
        text@.len() <= MAX_TEXT_LEN,
    ensures
        r is Some <==> is_subsequence(query@, text@, query_is_sensitive(query@)),
        match r {
            Some((sc, p)) => {
                &&& best_score(query@, text@, query_is_sensitive(query@)) == Some(sc as int)
                &&& valid_alignment(query@, text@, p@, query_is_sensitive(query@))
                &&& align_score(text@, p@) == sc as int
                &&& forall|p2: Seq<usize>|
                    valid_alignment(query@, text@, p2, query_is_sensitive(query@))
                        ==> align_score(text@, p2) <= sc as int
            },
            None => true,
        },
{
    let sensitive = exec_query_is_sensitive(query);
    let r = search(query, text, 0, 0, -1, sensitive);
    proof {
        lemma_best_some_iff_subseq(query@, text@, 0, 0, -1, sensitive);
        if r is Some {
            let sc = r->Some_0.0;
            assert forall|p2: Seq<usize>|
                valid_alignment(query@, text@, p2, sensitive) implies align_score(text@, p2)
                <= sc as int by {
                lemma_align_le_best(query@, text@, 0, 0, -1, sensitive, p2);
            }
        }
    }
    r
}

} // verus!
