//! Ordering, equality and substring search on strings, character by
//! character.  Relative paths are the index's sort key, so the lexicographic
//! order defined here underlies every binary search in the crate.

use vstd::prelude::*;

verus! {

/// Lexicographic order on character sequences, comparing code points.
pub open spec fn seq_lt(a: Seq<char>, b: Seq<char>) -> bool
    decreases a.len(),
{
    if b.len() == 0 {
        false
    } else if a.len() == 0 {
        true
    } else if a[0] != b[0] {
        a[0] < b[0]
    } else {
        seq_lt(a.drop_first(), b.drop_first())
    }
}

pub open spec fn seq_le(a: Seq<char>, b: Seq<char>) -> bool {
    seq_lt(a, b) || a == b
}

pub proof fn lemma_seq_lt_irreflexive(a: Seq<char>)
    ensures
        !seq_lt(a, a),
    decreases a.len(),
{
    if a.len() > 0 {
        lemma_seq_lt_irreflexive(a.drop_first());
    }
}

pub proof fn lemma_seq_lt_asymmetric(a: Seq<char>, b: Seq<char>)
    requires
        seq_lt(a, b),
    ensures
        !seq_lt(b, a),
        a != b,
    decreases a.len(),
{
    if a.len() > 0 && b.len() > 0 && a[0] == b[0] {
        lemma_seq_lt_asymmetric(a.drop_first(), b.drop_first());
        assert(a != b) by {
            assert(a.drop_first() != b.drop_first());
        }
    } else {
        if a != b {
        } else {
            assert(seq_lt(a, a));
            lemma_seq_lt_irreflexive(a);
        }
    }
}

pub proof fn lemma_seq_lt_connected(a: Seq<char>, b: Seq<char>)
    requires
        !seq_lt(a, b),
        !seq_lt(b, a),
    ensures
        a == b,
    decreases a.len(),
{
    if a.len() == 0 && b.len() == 0 {
        assert(a =~= b);
    } else if a.len() == 0 {
        assert(seq_lt(a, b));
    } else if b.len() == 0 {
        assert(seq_lt(b, a));
    } else if a[0] != b[0] {
        assert(a[0] < b[0] || b[0] < a[0]);
    } else {
        lemma_seq_lt_connected(a.drop_first(), b.drop_first());
        assert(a =~= b) by {
            assert(a.drop_first() =~= b.drop_first());
            assert(forall|i: int|
                1 <= i < a.len() ==> a[i] == a.drop_first()[i - 1] && b[i] == b.drop_first()[i
                    - 1]);
        }
    }
}

pub proof fn lemma_seq_lt_transitive(a: Seq<char>, b: Seq<char>, c: Seq<char>)
    requires
        seq_lt(a, b),
        seq_lt(b, c),
    ensures
        seq_lt(a, c),
    decreases a.len(),
{
    if a.len() == 0 {
    } else if b.len() == 0 {
    } else if c.len() == 0 {
    } else {
        if a[0] == b[0] && b[0] == c[0] {
            lemma_seq_lt_transitive(a.drop_first(), b.drop_first(), c.drop_first());
        }
    }
}

pub proof fn lemma_seq_le_transitive(a: Seq<char>, b: Seq<char>, c: Seq<char>)
    requires
        seq_le(a, b),
        seq_le(b, c),
    ensures
        seq_le(a, c),
{
    if a != b && b != c {
        lemma_seq_lt_transitive(a, b, c);
    }
}

pub proof fn lemma_seq_le_lt_transitive(a: Seq<char>, b: Seq<char>, c: Seq<char>)
    requires
        seq_le(a, b),
        seq_lt(b, c),
    ensures
        seq_lt(a, c),
{
    if a != b {
        lemma_seq_lt_transitive(a, b, c);
    }
}

pub proof fn lemma_seq_lt_le_transitive(a: Seq<char>, b: Seq<char>, c: Seq<char>)
    requires
        seq_lt(a, b),
        seq_le(b, c),
    ensures
        seq_lt(a, c),
{
    if b != c {
        lemma_seq_lt_transitive(a, b, c);
    }
}

/// A difference at position `i` after an equal prefix decides the order.
pub proof fn lemma_seq_lt_from_prefix(a: Seq<char>, b: Seq<char>, i: int)
    requires
        0 <= i <= a.len(),
        i <= b.len(),
        a.subrange(0, i) == b.subrange(0, i),
        (i < a.len() && i < b.len() && a[i] < b[i]) || (i == a.len() && i < b.len()),
    ensures
        seq_lt(a, b),
    decreases i,
{
    if i == 0 {
        if a.len() == 0 {
        } else {
            assert(a[0] != b[0]) by {
                assert(a[0] < b[0]);
            }
        }
    } else {
        assert(a.subrange(0, i)[0] == b.subrange(0, i)[0]);
        assert(a[0] == a.subrange(0, i)[0]);
        assert(b[0] == b.subrange(0, i)[0]);
        let a1 = a.drop_first();
        let b1 = b.drop_first();
        assert(a1.subrange(0, i - 1) =~= b1.subrange(0, i - 1)) by {
            assert(forall|j: int|
                0 <= j < i - 1 ==> a1[j] == a.subrange(0, i)[j + 1] && b1[j] == b.subrange(
                    0,
                    i,
                )[j + 1]);
        }
        lemma_seq_lt_from_prefix(a1, b1, i - 1);
    }
}

/// Three-way comparison of two strings in lexicographic code-point order;
/// negative, zero, positive as `a` is below, equal to, or above `b`.
pub fn str_cmp(a: &str, b: &str) -> (r: i8)
    ensures
        (r == 0) <==> (a@ == b@),
        (r < 0) <==> seq_lt(a@, b@),
        (r > 0) <==> seq_lt(b@, a@),
{
    let a_len = a.unicode_len();
    let b_len = b.unicode_len();
    let mut i: usize = 0;
    while i < a_len && i < b_len
        invariant
            i <= a_len,
            i <= b_len,
            a_len == a@.len(),
            b_len == b@.len(),
            a@.subrange(0, i as int) == b@.subrange(0, i as int),
        decreases a_len - i,
    {
        let ca = a.get_char(i);
        let cb = b.get_char(i);
        if ca != cb {
            proof {
                if ca < cb {
                    lemma_seq_lt_from_prefix(a@, b@, i as int);
                    lemma_seq_lt_asymmetric(a@, b@);
                } else {
                    assert(cb < ca);
                    assert(b@.subrange(0, i as int) == a@.subrange(0, i as int));
                    lemma_seq_lt_from_prefix(b@, a@, i as int);
                    lemma_seq_lt_asymmetric(b@, a@);
                }
            }
            if ca < cb {
                return -1;
            } else {
                return 1;
            }
        }
        proof {
            assert(a@.subrange(0, i + 1 as int) =~= b@.subrange(0, i + 1 as int)) by {
                assert(forall|j: int|
                    0 <= j < i ==> a@.subrange(0, i + 1)[j] == a@.subrange(0, i as int)[j]
                        && b@.subrange(0, i + 1)[j] == b@.subrange(0, i as int)[j]);
                assert(a@.subrange(0, i + 1)[i as int] == ca && b@.subrange(0, i + 1)[i as int]
                    == cb);
            }
        }
        i = i + 1;
    }
    if a_len == b_len {
        proof {
            assert(a@ =~= b@) by {
                assert(a@.subrange(0, a_len as int) =~= a@);
                assert(b@.subrange(0, b_len as int) =~= b@);
            }
            lemma_seq_lt_irreflexive(a@);
        }
        0
    } else if i == a_len {
        proof {
            lemma_seq_lt_from_prefix(a@, b@, i as int);
            lemma_seq_lt_asymmetric(a@, b@);
        }
        -1
    } else {
        proof {
            assert(b@.subrange(0, i as int) == a@.subrange(0, i as int));
            lemma_seq_lt_from_prefix(b@, a@, i as int);
            lemma_seq_lt_asymmetric(b@, a@);
        }
        1
    }
}

/// Equality of two strings as character sequences.
pub fn str_eq(a: &str, b: &str) -> (r: bool)
    ensures
        r <==> (a@ == b@),
{
    str_cmp(a, b) == 0
}

/// Strict order on two strings in lexicographic code-point order.
pub fn str_lt(a: &str, b: &str) -> (r: bool)
    ensures
        r <==> seq_lt(a@, b@),
{
    str_cmp(a, b) < 0
}

/// The string is free of NUL characters, as C-string interfaces require.
pub open spec fn no_nul(s: Seq<char>) -> bool {
    forall|i: int| 0 <= i < s.len() ==> s[i] != '\0'
}

/// `needle` occurs in `hay` starting at position `i`.
pub open spec fn seq_contains_at(hay: Seq<char>, needle: Seq<char>, i: int) -> bool {
    0 <= i && i + needle.len() <= hay.len() && hay.subrange(i, i + needle.len()) == needle
}

/// `needle` occurs somewhere in `hay` as a contiguous run of characters.
pub open spec fn seq_contains(hay: Seq<char>, needle: Seq<char>) -> bool {
    exists|i: int| seq_contains_at(hay, needle, i)
}

/// Substring search: does `needle` occur contiguously in `hay`?
pub fn str_contains(hay: &str, needle: &str) -> (r: bool)
    ensures
        r == seq_contains(hay@, needle@),
{
    let h_len = hay.unicode_len();
    let n_len = needle.unicode_len();
    if n_len == 0 {
        proof {
            assert(hay@.subrange(0, 0) =~= needle@);
            assert(seq_contains_at(hay@, needle@, 0));
        }
        return true;
    }
    if n_len > h_len {
        proof {
            assert(forall|i: int| !seq_contains_at(hay@, needle@, i));
        }
        return false;
    }
    let mut i: usize = 0;
    while i <= h_len - n_len
        invariant
            h_len == hay@.len(),
            n_len == needle@.len(),
            n_len <= h_len,
            i <= h_len - n_len + 1,
            1 <= n_len,
            forall|k: int| 0 <= k < i ==> !seq_contains_at(hay@, needle@, k),
        decreases h_len - n_len + 1 - i,
    {
        let mut j: usize = 0;
        let mut mismatch = false;
        while j < n_len && !mismatch
            invariant
                h_len == hay@.len(),
                n_len == needle@.len(),
                i + n_len <= h_len,
                j <= n_len,
                !mismatch ==> forall|t: int| 0 <= t < j ==> hay@[i + t] == needle@[t],
                mismatch ==> !seq_contains_at(hay@, needle@, i as int),
            decreases n_len - j + (if mismatch { 0int } else { 1int }),
        {
            let hc = hay.get_char(i + j);
            let nc = needle.get_char(j);
            if hc != nc {
                proof {
                    if seq_contains_at(hay@, needle@, i as int) {
                        assert(hay@.subrange(i as int, i + n_len)[j as int] == needle@[j as int]);
                    }
                }
                mismatch = true;
            } else {
                j = j + 1;
            }
        }
        if !mismatch {
            proof {
                assert(hay@.subrange(i as int, i + n_len) =~= needle@) by {
                    assert(forall|t: int|
                        0 <= t < n_len ==> #[trigger] hay@.subrange(i as int, i + n_len)[t]
                            == hay@[i + t]);
                }
                assert(seq_contains_at(hay@, needle@, i as int));
            }
            return true;
        }
        i = i + 1;
    }
    proof {
        assert(forall|k: int| seq_contains_at(hay@, needle@, k) ==> 0 <= k < i);
    }
    false
}

/// The code point of a character with ASCII upper-case letters folded to
/// lower case; other characters are left as they are.
pub open spec fn fold_code(c: char) -> int {
    if 'A' <= c && c <= 'Z' {
        c as int + 32
    } else {
        c as int
    }
}

/// Character sequences equal up to ASCII case.
pub open spec fn seq_eq_fold(a: Seq<char>, b: Seq<char>) -> bool {
    a.len() == b.len() && (forall|i: int| 0 <= i < a.len() ==> fold_code(a[i]) == fold_code(b[i]))
}

/// Equality of two strings ignoring the case of ASCII letters.
pub fn str_eq_ignore_ascii_case(a: &str, b: &str) -> (r: bool)
    ensures
        r == seq_eq_fold(a@, b@),
{
    let a_len = a.unicode_len();
    let b_len = b.unicode_len();
    if a_len != b_len {
        return false;
    }
    let mut i: usize = 0;
    while i < a_len
        invariant
            a_len == a@.len(),
            b_len == b@.len(),
            a_len == b_len,
            i <= a_len,
            forall|t: int| 0 <= t < i ==> fold_code(a@[t]) == fold_code(b@[t]),
        decreases a_len - i,
    {
        let ca = a.get_char(i);
        let cb = b.get_char(i);
        let fa: u32 = if 'A' <= ca && ca <= 'Z' {
            (ca as u32) + 32
        } else {
            ca as u32
        };
        let fb: u32 = if 'A' <= cb && cb <= 'Z' {
            (cb as u32) + 32
        } else {
            cb as u32
        };
        if fa != fb {
            return false;
        }
        i = i + 1;
    }
    true
}

} // verus!
