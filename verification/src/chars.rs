//! Character classification, case folding and lexical order on text.
//!
//! Candidate and query text is held as `Vec<char>`; its mathematical
//! model is `Seq<char>`. Case folding is ASCII folding: the finder's
//! "smart case" rule only distinguishes ASCII upper-case letters.

use vstd::prelude::*;

verus! {

/// An ASCII upper-case letter.
pub open spec fn is_upper(c: char) -> bool {
    65 <= (c as u32) <= 90
}

/// An ASCII letter or digit; everything else counts as a word boundary.
pub open spec fn is_word_char(c: char) -> bool {
    ||| 48 <= (c as u32) <= 57
    ||| 65 <= (c as u32) <= 90
    ||| 97 <= (c as u32) <= 122
}

/// ASCII lower-casing: `'A'..='Z'` map to `'a'..='z'`, all else is fixed.
pub open spec fn fold_char(c: char) -> char {
    if is_upper(c) {
        ((c as u32) + 32) as char
    } else {
        c
    }
}

/// Whether query character `qc` matches text character `tc`, exactly when
/// case-sensitive, up to ASCII case folding otherwise.
pub open spec fn chars_match(qc: char, tc: char, sensitive: bool) -> bool {
    if sensitive {
        qc == tc
    } else {
        fold_char(qc) == fold_char(tc)
    }
}

/// A query forces case-sensitive matching exactly when it contains an
/// ASCII upper-case letter ("smart case").
pub open spec fn query_is_sensitive(q: Seq<char>) -> bool {
    exists|i: int| 0 <= i < q.len() && is_upper(q[i])
}

pub fn exec_is_upper(c: char) -> (r: bool)
    ensures
        r == is_upper(c),
{
    let u = c as u32;
    65 <= u && u <= 90
}

pub fn exec_is_word_char(c: char) -> (r: bool)
    ensures
        r == is_word_char(c),
{
    let u = c as u32;
    (48 <= u && u <= 57) || (65 <= u && u <= 90) || (97 <= u && u <= 122)
}

pub fn exec_fold_char(c: char) -> (r: char)
    ensures
        r == fold_char(c),
{
    let u = c as u32;
    if 65 <= u && u <= 90 {
        let b = (c as u8) + 32;
        b as char
    } else {
        c
    }
}

pub fn exec_chars_match(qc: char, tc: char, sensitive: bool) -> (r: bool)
    ensures
        r == chars_match(qc, tc, sensitive),
{
    if sensitive {
        let a = qc as u32;
        let b = tc as u32;
        proof {
            vstd::utf8::char_u32_cast(qc, qc as u32);
            vstd::utf8::char_u32_cast(tc, tc as u32);
        }
        a == b
    } else {
        let a = exec_fold_char(qc) as u32;
        let b = exec_fold_char(tc) as u32;
        proof {
            vstd::utf8::char_u32_cast(fold_char(qc), fold_char(qc) as u32);
            vstd::utf8::char_u32_cast(fold_char(tc), fold_char(tc) as u32);
        }
        a == b
    }
}

/// Whether the query, held as characters, forces case-sensitive matching.
pub fn exec_query_is_sensitive(q: &Vec<char>) -> (r: bool)
    ensures
        r == query_is_sensitive(q@),
{
    let mut i: usize = 0;
    while i < q.len()
        invariant
            0 <= i <= q@.len(),
            forall|j: int| 0 <= j < i ==> !is_upper(q@[j]),
        decreases q@.len() - i,
    {
        if exec_is_upper(q[i]) {
            return true;
        }
        i = i + 1;
    }
    false
}

/// Strict lexical order on text by Unicode scalar value.
pub open spec fn lex_lt(a: Seq<char>, b: Seq<char>) -> bool
    decreases a.len(),
{
    if b.len() == 0 {
        false
    } else if a.len() == 0 {
        true
    } else if (a[0] as u32) < (b[0] as u32) {
        true
    } else if (a[0] as u32) == (b[0] as u32) {
        lex_lt(a.skip(1), b.skip(1))
    } else {
        false
    }
}

/// Lexical order is trichotomous: of two texts, either one strictly
/// precedes the other or they are equal.
pub proof fn lemma_lex_trichotomy(a: Seq<char>, b: Seq<char>)
    ensures
        lex_lt(a, b) || lex_lt(b, a) || a =~= b,
    decreases a.len() + b.len(),
{
    if a.len() == 0 || b.len() == 0 {
    } else if (a[0] as u32) == (b[0] as u32) {
        vstd::utf8::char_u32_cast(a[0], a[0] as u32);
        vstd::utf8::char_u32_cast(b[0], b[0] as u32);
        assert(a[0] == b[0]);
        lemma_lex_trichotomy(a.skip(1), b.skip(1));
        if a.skip(1) =~= b.skip(1) {
            assert(a.len() == b.len());
            assert forall|j: int| 0 <= j < a.len() implies a[j] == b[j] by {
                if j >= 1 {
                    assert(a[j] == a.skip(1)[j - 1]);
                    assert(b[j] == b.skip(1)[j - 1]);
                }
            }
            assert(a =~= b);
        }
    }
}

/// Lexical order is irreflexive on equal texts.
pub proof fn lemma_lex_irrefl(a: Seq<char>)
    ensures
        !lex_lt(a, a),
    decreases a.len(),
{
    if a.len() > 0 {
        lemma_lex_irrefl(a.skip(1));
    }
}

/// Lexical order is asymmetric.
pub proof fn lemma_lex_asym(a: Seq<char>, b: Seq<char>)
    ensures
        !(lex_lt(a, b) && lex_lt(b, a)),
    decreases a.len() + b.len(),
{
    if a.len() > 0 && b.len() > 0 && (a[0] as u32) == (b[0] as u32) {
        lemma_lex_asym(a.skip(1), b.skip(1));
    }
}

/// Lexical order is transitive.
pub proof fn lemma_lex_trans(a: Seq<char>, b: Seq<char>, c: Seq<char>)
    requires
        lex_lt(a, b),
        lex_lt(b, c),
    ensures
        lex_lt(a, c),
    decreases a.len() + b.len() + c.len(),
{
    if a.len() == 0 {
    } else {
        if (a[0] as u32) == (b[0] as u32) && (b[0] as u32) == (c[0] as u32) {
            lemma_lex_trans(a.skip(1), b.skip(1), c.skip(1));
        }
    }
}

/// Three-way lexical comparison of two texts; negative means the first
/// strictly precedes the second, zero means they are equal.
pub fn lex_compare(a: &Vec<char>, b: &Vec<char>) -> (r: i8)
    ensures
        r == -1 ==> lex_lt(a@, b@),
        r == 1 ==> lex_lt(b@, a@),
        r == 0 ==> a@ =~= b@,
        r == -1 || r == 0 || r == 1,
{
    let mut i: usize = 0;
    let n = if a.len() < b.len() {
        a.len()
    } else {
        b.len()
    };
    while i < n
        invariant
            0 <= i <= n,
            n == if a@.len() < b@.len() {
                a@.len()
            } else {
                b@.len()
            },
            forall|j: int| 0 <= j < i ==> a@[j] == b@[j],
        decreases n - i,
    {
        let ca = a[i] as u32;
        let cb = b[i] as u32;
        proof {
            vstd::utf8::char_u32_cast(a@[i as int], a@[i as int] as u32);
            vstd::utf8::char_u32_cast(b@[i as int], b@[i as int] as u32);
        }
        if ca < cb {
            proof {
                lemma_lex_skip_prefix(a@, b@, i as int);
                assert(a@.skip(i as int)[0] == a@[i as int]);
                assert(b@.skip(i as int)[0] == b@[i as int]);
            }
            return -1;
        }
        if cb < ca {
            proof {
                lemma_lex_skip_prefix(b@, a@, i as int);
                assert(a@.skip(i as int)[0] == a@[i as int]);
                assert(b@.skip(i as int)[0] == b@[i as int]);
            }
            return 1;
        }
        i = i + 1;
    }
    proof {
        lemma_lex_skip_prefix(a@, b@, n as int);
        lemma_lex_skip_prefix(b@, a@, n as int);
    }
    if a.len() < b.len() {
        proof {
            assert(a@.skip(n as int).len() == 0);
            assert(b@.skip(n as int).len() > 0);
        }
        -1
    } else if b.len() < a.len() {
        proof {
            assert(b@.skip(n as int).len() == 0);
            assert(a@.skip(n as int).len() > 0);
        }
        1
    } else {
        proof {
            assert(a@ =~= b@) by {
                assert(forall|j: int| 0 <= j < n ==> a@[j] == b@[j]);
            }
        }
        0
    }
}

proof fn lemma_lex_skip_prefix(a: Seq<char>, b: Seq<char>, k: int)
    requires
        0 <= k <= a.len(),
        0 <= k <= b.len(),
        forall|j: int| 0 <= j < k ==> a[j] == b[j],
    ensures
        lex_lt(a, b) <==> lex_lt(a.skip(k), b.skip(k)),
    decreases k,
{
    if k == 0 {
        assert(a.skip(0) =~= a);
        assert(b.skip(0) =~= b);
    } else {
        assert(a[0] == b[0]);
        assert(a.len() > 0 && b.len() > 0);
        assert(a.skip(1).skip(k - 1) =~= a.skip(k));
        assert(b.skip(1).skip(k - 1) =~= b.skip(k));
        assert(forall|j: int| 0 <= j < k - 1 ==> a.skip(1)[j] == b.skip(1)[j]);
        lemma_lex_skip_prefix(a.skip(1), b.skip(1), k - 1);
        assert(lex_lt(a, b) == lex_lt(a.skip(1), b.skip(1)));
    }
}

} // verus!
