//! Stable sorting in descending order of a key, as `sort_by` with a reversed
//! comparison does it: equal keys keep their original order.

use vstd::prelude::*;

verus! {

/// Where `x` goes into the descending sequence `s`: before the first element
/// with a smaller key, so after every element with an equal key.
pub open spec fn insert_pos<T>(s: Seq<T>, x: T, key: spec_fn(T) -> int) -> nat
    decreases s.len(),
{
    if s.len() == 0 {
        0
    } else if key(s[0]) < key(x) {
        0
    } else {
        1 + insert_pos(s.drop_first(), x, key)
    }
}

/// `s` stably sorted in descending order of `key`: each element in turn is
/// inserted after the elements already placed whose key is not smaller.
pub open spec fn sort_desc<T>(s: Seq<T>, key: spec_fn(T) -> int) -> Seq<T>
    decreases s.len(),
{
    if s.len() == 0 {
        s
    } else {
        let t = sort_desc(s.drop_last(), key);
        t.insert(insert_pos(t, s.last(), key) as int, s.last())
    }
}

/// No element has a larger key than one before it.
pub open spec fn sorted_desc<T>(s: Seq<T>, key: spec_fn(T) -> int) -> bool {
    forall|i: int, j: int| 0 <= i < j < s.len() ==> key(#[trigger] s[j]) <= key(#[trigger] s[i])
}

pub proof fn lemma_insert_pos<T>(s: Seq<T>, x: T, key: spec_fn(T) -> int)
    ensures
        insert_pos(s, x, key) <= s.len(),
        forall|k: int| 0 <= k < insert_pos(s, x, key) ==> key(x) <= key(#[trigger] s[k]),
        insert_pos(s, x, key) < s.len() ==> key(s[insert_pos(s, x, key) as int]) < key(x),
    decreases s.len(),
{
    if s.len() > 0 && !(key(s[0]) < key(x)) {
        lemma_insert_pos(s.drop_first(), x, key);
        assert forall|k: int| 0 <= k < insert_pos(s, x, key) implies key(x) <= key(
            #[trigger] s[k],
        ) by {
            if k > 0 {
                assert(s[k] == s.drop_first()[k - 1]);
            }
        }
    }
}

/// An index with only not-smaller keys before it and a smaller key at it
/// (or at the end) is the insertion position.
pub proof fn lemma_insert_pos_at<T>(s: Seq<T>, x: T, key: spec_fn(T) -> int, p: int)
    requires
        0 <= p <= s.len(),
        forall|k: int| 0 <= k < p ==> !(key(#[trigger] s[k]) < key(x)),
        p == s.len() || key(s[p]) < key(x),
    ensures
        insert_pos(s, x, key) == p,
    decreases p,
{
    if p > 0 {
        let t = s.drop_first();
        assert forall|k: int| 0 <= k < p - 1 implies !(key(#[trigger] t[k]) < key(x)) by {
            assert(t[k] == s[k + 1]);
        }
        if p < s.len() {
            assert(t[p - 1] == s[p]);
        }
        assert(!(key(s[0]) < key(x)));
        lemma_insert_pos_at(t, x, key, p - 1);
    }
}

/// The stable descending sort yields a descending arrangement of the same
/// elements.
pub proof fn lemma_sort_desc<T>(s: Seq<T>, key: spec_fn(T) -> int)
    ensures
        sort_desc(s, key).len() == s.len(),
        sorted_desc(sort_desc(s, key), key),
        sort_desc(s, key).to_multiset() == s.to_multiset(),
    decreases s.len(),
{
    broadcast use vstd::seq_lib::to_multiset_insert, vstd::seq_lib::to_multiset_build;

    if s.len() > 0 {
        let t = sort_desc(s.drop_last(), key);
        let x = s.last();
        lemma_sort_desc(s.drop_last(), key);
        lemma_insert_pos(t, x, key);
        let p = insert_pos(t, x, key) as int;
        let u = t.insert(p, x);
        assert forall|i: int, j: int| 0 <= i < j < u.len() implies key(#[trigger] u[j]) <= key(
            #[trigger] u[i],
        ) by {
            if j < p {
                assert(u[i] == t[i] && u[j] == t[j]);
            } else if j == p {
                assert(u[i] == t[i]);
            } else if i < p {
                assert(u[i] == t[i] && u[j] == t[j - 1]);
                assert(key(t[p]) < key(x));
                assert(key(t[j - 1]) <= key(t[p]) || j - 1 == p);
            } else if i == p {
                assert(u[j] == t[j - 1]);
                assert(key(t[j - 1]) <= key(t[p]) || j - 1 == p);
            } else {
                assert(u[i] == t[i - 1] && u[j] == t[j - 1]);
            }
        }
        assert(s.drop_last().push(x) =~= s);
    }
}

} // verus!
