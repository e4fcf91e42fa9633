//! A small general fact about sequences and multisets that the sorted
//! containers in this crate share.

use vstd::multiset::Multiset;
use vstd::prelude::*;

verus! {

/// Inserting an element anywhere in a sequence adds exactly that element to
/// its multiset of values.
pub proof fn lemma_insert_to_multiset<A>(s: Seq<A>, i: int, x: A)
    requires
        0 <= i <= s.len(),
    ensures
        s.insert(i, x).to_multiset() == s.to_multiset().insert(x),
{
    broadcast use vstd::seq_lib::group_seq_lib_default;

    let pre = s.subrange(0, i);
    let suf = s.subrange(i, s.len() as int);
    assert(s =~= pre + suf);
    assert(s.insert(i, x) =~= pre.push(x) + suf);
    vstd::seq_lib::lemma_multiset_commutative(pre.push(x), suf);
    vstd::seq_lib::lemma_multiset_commutative(pre, suf);
    pre.to_multiset_ensures();
    assert(s.insert(i, x).to_multiset() =~= s.to_multiset().insert(x));
}

/// Two positions holding the same value give it a multiset count of at
/// least two.
pub proof fn lemma_two_indices_count_two<A>(s: Seq<A>, i: int, j: int)
    requires
        0 <= i < j < s.len(),
        s[i] == s[j],
    ensures
        s.to_multiset().count(s[i]) >= 2,
{
    broadcast use vstd::multiset::group_multiset_axioms;

    s.to_multiset_ensures();
    let t = s.remove(i);
    t.to_multiset_ensures();
    assert(t[j - 1] == s[j]);
    assert(t.contains(s[j]));
    assert(t.to_multiset() == s.to_multiset().remove(s[i]));
    assert(t.to_multiset().count(s[i]) > 0);
    assert(Multiset::singleton(s[i]).count(s[i]) == 1);
    assert(s.to_multiset().remove(s[i]).count(s[i]) > 0);
}

/// A multiset count of at least two names two distinct positions holding
/// the value.
pub proof fn lemma_count_two_two_indices<A>(s: Seq<A>, x: A) -> (r: (int, int))
    requires
        s.to_multiset().count(x) >= 2,
    ensures
        0 <= r.0 < r.1 < s.len(),
        s[r.0] == x,
        s[r.1] == x,
{
    broadcast use vstd::multiset::group_multiset_axioms;

    s.to_multiset_ensures();
    assert(s.contains(x));
    let i = choose|i: int| 0 <= i < s.len() && s[i] == x;
    let t = s.remove(i);
    t.to_multiset_ensures();
    assert(t.to_multiset().count(x) >= 1);
    assert(t.contains(x));
    let j = choose|j: int| 0 <= j < t.len() && t[j] == x;
    if j < i {
        assert(t[j] == s[j]);
        (j, i)
    } else {
        assert(t[j] == s[j + 1]);
        (i, j + 1)
    }
}

} // verus!
