//! Stable insertion sorts, with the order they produce stated as spec functions.

use vstd::prelude::*;
use crate::geometry::{ObjectView, TableObject};
use crate::reader::views;

verus! {

/// `s` with `x` placed after every element whose key is at least `x`'s, and
/// before the rest.
pub open spec fn insert_by_key<A>(s: Seq<A>, x: A, key: spec_fn(A) -> int) -> Seq<A>
    decreases s.len(),
{
    if s.len() == 0 {
        seq![x]
    } else if key(s[0]) < key(x) {
        seq![x] + s
    } else {
        seq![s[0]] + insert_by_key(s.drop_first(), x, key)
    }
}

/// `s` ordered by descending key; elements of equal key keep their order.
pub open spec fn sort_desc_by<A>(s: Seq<A>, key: spec_fn(A) -> int) -> Seq<A>
    decreases s.len(),
{
    if s.len() == 0 {
        s
    } else {
        insert_by_key(sort_desc_by(s.drop_last(), key), s.last(), key)
    }
}

/// `s` is ordered by descending key.
pub open spec fn is_desc_by<A>(s: Seq<A>, key: spec_fn(A) -> int) -> bool {
    forall|i: int, j: int| 0 <= i < j < s.len() ==> key(#[trigger] s[i]) >= key(#[trigger] s[j])
}

/// Inserting into an ordered sequence keeps it ordered and adds `x` to its
/// elements.
pub proof fn lemma_insert_ordered<A>(s: Seq<A>, x: A, key: spec_fn(A) -> int)
    requires
        is_desc_by(s, key),
    ensures
        is_desc_by(insert_by_key(s, x, key), key),
        insert_by_key(s, x, key).to_multiset() =~= s.to_multiset().insert(x),
    decreases s.len(),
{
    broadcast use vstd::seq_lib::group_to_multiset_ensures;
    broadcast use vstd::seq_lib::lemma_multiset_commutative;
    broadcast use vstd::multiset::group_multiset_axioms;

    assert(seq![x] =~= Seq::<A>::empty().push(x));
    if s.len() == 0 {
    } else if key(s[0]) < key(x) {
        let r = seq![x] + s;
        assert forall|i: int, j: int| 0 <= i < j < r.len() implies key(#[trigger] r[i]) >= key(#[trigger] r[j]) by {
            if i > 0 {
                assert(r[i] == s[i - 1] && r[j] == s[j - 1]);
            } else {
                assert(r[j] == s[j - 1]);
                if j > 1 {
                    assert(key(s[0]) >= key(s[j - 1]));
                }
            }
        }
    } else {
        let t = s.drop_first();
        assert(s =~= seq![s[0]] + t);
        assert(is_desc_by(t, key)) by {
            assert forall|i: int, j: int| 0 <= i < j < t.len() implies key(#[trigger] t[i]) >= key(#[trigger] t[j]) by {
                assert(t[i] == s[i + 1] && t[j] == s[j + 1]);
            }
        }
        lemma_insert_ordered(t, x, key);
        let it = insert_by_key(t, x, key);
        let r = seq![s[0]] + it;
        assert forall|i: int| 0 <= i < t.len() implies key(#[trigger] t[i]) <= key(s[0]) by {
            assert(t[i] == s[i + 1]);
        }
        lemma_insert_all(t, x, key, |e: A| key(e) <= key(s[0]));
        assert forall|i: int, j: int| 0 <= i < j < r.len() implies key(#[trigger] r[i]) >= key(#[trigger] r[j]) by {
            assert(r[j] == it[j - 1]);
            if i > 0 {
                assert(r[i] == it[i - 1]);
            }
        }
    }
}

/// Sorting orders by descending key and keeps the elements.
pub proof fn lemma_sort_ordered<A>(s: Seq<A>, key: spec_fn(A) -> int)
    ensures
        is_desc_by(sort_desc_by(s, key), key),
        sort_desc_by(s, key).to_multiset() =~= s.to_multiset(),
    decreases s.len(),
{
    broadcast use vstd::seq_lib::group_to_multiset_ensures;

    if s.len() > 0 {
        lemma_sort_ordered(s.drop_last(), key);
        lemma_insert_ordered(sort_desc_by(s.drop_last(), key), s.last(), key);
        assert(s =~= s.drop_last().push(s.last()));
    }
}

/// The sort key of a page object: its y.
pub open spec fn y_key() -> spec_fn(ObjectView) -> int {
    |o: ObjectView| o.y() as int
}

/// The sort key of an integer: itself for a descending order, its negation
/// for an ascending one.
pub open spec fn int_key(descending: bool) -> spec_fn(i128) -> int {
    |v: i128| if descending { v as int } else { -(v as int) }
}

/// Inserting adds one element.
pub proof fn lemma_insert_len<A>(s: Seq<A>, x: A, key: spec_fn(A) -> int)
    ensures
        insert_by_key(s, x, key).len() == s.len() + 1,
    decreases s.len(),
{
    if s.len() > 0 && key(s[0]) >= key(x) {
        lemma_insert_len(s.drop_first(), x, key);
    }
}

/// Sorting keeps the length.
pub proof fn lemma_sort_len<A>(s: Seq<A>, key: spec_fn(A) -> int)
    ensures
        sort_desc_by(s, key).len() == s.len(),
    decreases s.len(),
{
    if s.len() > 0 {
        lemma_sort_len(s.drop_last(), key);
        lemma_insert_len(sort_desc_by(s.drop_last(), key), s.last(), key);
    }
}

/// A property of every element of `s` and of `x` holds of every element of
/// the insertion.
pub proof fn lemma_insert_all<A>(s: Seq<A>, x: A, key: spec_fn(A) -> int, p: spec_fn(A) -> bool)
    requires
        forall|i: int| 0 <= i < s.len() ==> p(#[trigger] s[i]),
        p(x),
    ensures
        forall|i: int| 0 <= i < insert_by_key(s, x, key).len() ==> p(#[trigger] insert_by_key(s, x, key)[i]),
    decreases s.len(),
{
    lemma_insert_len(s, x, key);
    if s.len() > 0 && key(s[0]) >= key(x) {
        let t = s.drop_first();
        lemma_insert_all(t, x, key, p);
        let r = insert_by_key(s, x, key);
        assert forall|i: int| 0 <= i < r.len() implies p(#[trigger] r[i]) by {
            if i > 0 {
                assert(r[i] == insert_by_key(t, x, key)[i - 1]);
            }
        }
    }
}

/// A property of every element of `s` holds of every element of its sort.
pub proof fn lemma_sort_all<A>(s: Seq<A>, key: spec_fn(A) -> int, p: spec_fn(A) -> bool)
    requires
        forall|i: int| 0 <= i < s.len() ==> p(#[trigger] s[i]),
    ensures
        forall|i: int| 0 <= i < sort_desc_by(s, key).len() ==> p(#[trigger] sort_desc_by(s, key)[i]),
    decreases s.len(),
{
    if s.len() > 0 {
        lemma_sort_all(s.drop_last(), key, p);
        lemma_insert_all(sort_desc_by(s.drop_last(), key), s.last(), key, p);
    }
}

/// Inserting at the first position whose key is below `x`'s is `insert_by_key`.
pub proof fn lemma_insert_at<A>(s: Seq<A>, x: A, key: spec_fn(A) -> int, j: int)
    requires
        0 <= j <= s.len(),
        forall|k: int| 0 <= k < j ==> key(#[trigger] s[k]) >= key(x),
        j < s.len() ==> key(s[j]) < key(x),
    ensures
        insert_by_key(s, x, key) == s.insert(j, x),
    decreases j,
{
    if s.len() == 0 {
        assert(s.insert(j, x) =~= seq![x]);
    } else if j == 0 {
        assert(s.insert(j, x) =~= seq![x] + s);
    } else {
        let t = s.drop_first();
        assert forall|k: int| 0 <= k < j - 1 implies key(#[trigger] t[k]) >= key(x) by {
            assert(t[k] == s[k + 1]);
        }
        lemma_insert_at(t, x, key, j - 1);
        assert(s.insert(j, x) =~= seq![s[0]] + t.insert(j - 1, x));
    }
}

fn ranks_before(a: i128, x: i128, descending: bool) -> (r: bool)
    ensures
        r == (int_key(descending)(a) >= int_key(descending)(x)),
{
    if descending {
        a >= x
    } else {
        a <= x
    }
}

/// Sorts integers by the order that `int_key(descending)` gives.
pub fn sort_ints(v: Vec<i128>, descending: bool) -> (r: Vec<i128>)
    ensures
        r@ == sort_desc_by(v@, int_key(descending)),
        is_desc_by(r@, int_key(descending)),
        r@.to_multiset() == v@.to_multiset(),
{
    proof {
        lemma_sort_ordered(v@, int_key(descending));
    }
    let mut r: Vec<i128> = Vec::new();
    let mut i: usize = 0;
    while i < v.len()
        invariant
            i <= v@.len(),
            r@ == sort_desc_by(v@.subrange(0, i as int), int_key(descending)),
        decreases v@.len() - i,
    {
        let x = v[i];
        let ghost key = int_key(descending);
        let mut j: usize = 0;
        while j < r.len() && ranks_before(r[j], x, descending)
            invariant
                j <= r@.len(),
                key == int_key(descending),
                forall|k: int| 0 <= k < j ==> key(#[trigger] r@[k]) >= key(x),
            decreases r@.len() - j,
        {
            j = j + 1;
        }
        proof {
            lemma_insert_at(r@, x, key, j as int);
            assert(v@.subrange(0, i + 1).drop_last() =~= v@.subrange(0, i as int));
        }
        r.insert(j, x);
        i = i + 1;
    }
    assert(v@.subrange(0, v@.len() as int) =~= v@);
    r
}

/// Sorts page objects by descending y; objects of equal y keep their order.
pub fn sort_objects_desc(v: &Vec<TableObject>) -> (r: Vec<TableObject>)
    ensures
        views(r@) == sort_desc_by(views(v@), y_key()),
        is_desc_by(views(r@), y_key()),
        views(r@).to_multiset() == views(v@).to_multiset(),
{
    proof {
        lemma_sort_ordered(views(v@), y_key());
    }
    let mut r: Vec<TableObject> = Vec::new();
    let mut i: usize = 0;
    while i < v.len()
        invariant
            i <= v@.len(),
            views(r@) == sort_desc_by(views(v@).subrange(0, i as int), y_key()),
        decreases v@.len() - i,
    {
        let x = v[i].duplicate();
        let xy = x.y();
        let mut j: usize = 0;
        while j < r.len() && r[j].y() >= xy
            invariant
                j <= r@.len(),
                xy == x@.y(),
                forall|k: int| 0 <= k < j ==> y_key()(#[trigger] views(r@)[k]) >= y_key()(x@),
            decreases r@.len() - j,
        {
            assert(views(r@)[j as int] == r@[j as int]@);
            j = j + 1;
        }
        proof {
            lemma_insert_at(views(r@), x@, y_key(), j as int);
            assert(views(v@).subrange(0, i + 1).drop_last() =~= views(v@).subrange(0, i as int));
        }
        let ghost before = r@;
        r.insert(j, x);
        assert(views(r@) =~= views(before).insert(j as int, x@));
        i = i + 1;
    }
    assert(views(v@).subrange(0, v@.len() as int) =~= views(v@));
    r
}

} // verus!
