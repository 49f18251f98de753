//! Lists in the order of a key.

use vstd::prelude::*;

verus! {

/// `list` with `e` behind every member whose key is not higher.
pub open spec fn filed<T>(list: Seq<T>, e: T, key: spec_fn(T) -> int) -> Seq<T>
    decreases list.len(),
{
    if list.len() == 0 || key(list.last()) <= key(e) {
        list.push(e)
    } else {
        filed(list.drop_last(), e, key).push(list.last())
    }
}

/// The members of `list` by ascending key; members with the same key keep their order.
pub open spec fn ordered<T>(list: Seq<T>, key: spec_fn(T) -> int) -> Seq<T>
    decreases list.len(),
{
    if list.len() == 0 {
        list
    } else {
        filed(ordered(list.drop_last(), key), list.last(), key)
    }
}

/// Whether no key is followed by a lower one.
pub open spec fn ascends<T>(list: Seq<T>, key: spec_fn(T) -> int) -> bool {
    forall|i: int, j: int|
        0 <= i < j < list.len() ==> key(#[trigger] list[i]) <= key(#[trigger] list[j])
}

/// Whether something has the key `n`.
pub open spec fn has_key<T>(key: spec_fn(T) -> int, n: int) -> spec_fn(T) -> bool {
    |t: T| key(t) == n
}

/// The members of `list` with the key `n`, in their order.
pub open spec fn with_key<T>(list: Seq<T>, key: spec_fn(T) -> int, n: int) -> Seq<T> {
    list.filter(has_key(key, n))
}

/// What filtering a list with one more member gives.
pub proof fn lemma_filter_push<T>(list: Seq<T>, e: T, p: spec_fn(T) -> bool)
    ensures
        list.push(e).filter(p) == if p(e) {
            list.filter(p).push(e)
        } else {
            list.filter(p)
        },
{
    reveal(Seq::filter);
    assert(list.push(e).drop_last() =~= list);
}

/// What holds of any two members of a list, in their order, holds of those that are left
/// by filtering it.
pub proof fn lemma_filter_keeps_pairs<T>(
    list: Seq<T>,
    p: spec_fn(T) -> bool,
    related: spec_fn(T, T) -> bool,
)
    requires
        forall|i: int, j: int|
            0 <= i < j < list.len() ==> related(#[trigger] list[i], #[trigger] list[j]),
    ensures
        forall|i: int, j: int|
            0 <= i < j < list.filter(p).len() ==> related(
                #[trigger] list.filter(p)[i],
                #[trigger] list.filter(p)[j],
            ),
    decreases list.len(),
{
    reveal(Seq::filter);
    if list.len() > 0 {
        let head = list.drop_last();
        assert forall|i: int, j: int| 0 <= i < j < head.len() implies related(
            #[trigger] head[i],
            #[trigger] head[j],
        ) by {
            assert(related(list[i], list[j]));
        }
        lemma_filter_keeps_pairs(head, p, related);
        let all = list.filter(p);
        let rest = head.filter(p);
        assert forall|i: int, j: int| 0 <= i < j < all.len() implies related(
            #[trigger] all[i],
            #[trigger] all[j],
        ) by {
            if j < rest.len() {
                assert(related(rest[i], rest[j]));
            } else {
                assert(rest.contains(rest[i]));
                head.lemma_filter_contains_rev(p, rest[i]);
                let n = choose|n: int| 0 <= n < head.len() && head[n] == rest[i];
                assert(related(list[n], list[list.len() - 1]));
            }
        }
    }
}

/// What filing one member does.
proof fn lemma_filed<T>(list: Seq<T>, e: T, key: spec_fn(T) -> int, n: int)
    requires
        ascends(list, key),
    ensures
        ascends(filed(list, e, key), key),
        filed(list, e, key).to_multiset() == list.to_multiset().insert(e),
        with_key(filed(list, e, key), key, n) == with_key(list.push(e), key, n),
    decreases list.len(),
{
    broadcast use vstd::seq_lib::group_to_multiset_ensures;

    let has = has_key(key, n);
    if list.len() == 0 || key(list.last()) <= key(e) {
        let r = list.push(e);
        assert forall|i: int, j: int| 0 <= i < j < r.len() implies key(#[trigger] r[i]) <= key(
            #[trigger] r[j],
        ) by {
            if j == list.len() && i < list.len() - 1 {
                assert(key(list[i]) <= key(list[list.len() - 1]));
            }
        }
    } else {
        let top = list.last();
        let rest = list.drop_last();
        lemma_filed(rest, e, key, n);
        let inner = filed(rest, e, key);
        let r = inner.push(top);
        assert(list =~= rest.push(top));
        assert(r.to_multiset() =~= list.to_multiset().insert(e));
        assert forall|i: int, j: int| 0 <= i < j < r.len() implies key(#[trigger] r[i]) <= key(
            #[trigger] r[j],
        ) by {
            if j == inner.len() {
                assert(inner.contains(inner[i]));
                assert(inner.to_multiset().count(inner[i]) > 0);
                if inner[i] != e {
                    assert(rest.to_multiset().count(inner[i]) > 0);
                    assert(rest.contains(inner[i]));
                    let k = choose|k: int| 0 <= k < rest.len() && rest[k] == inner[i];
                    assert(key(list[k]) <= key(list[list.len() - 1]));
                }
            } else {
                assert(r[i] == inner[i] && r[j] == inner[j]);
            }
        }
        lemma_filter_push(inner, top, has);
        lemma_filter_push(rest, e, has);
        lemma_filter_push(rest, top, has);
        lemma_filter_push(list, e, has);
    }
}

/// A list in order ascends, has the members that it had before, and keeps members with
/// the same key in the order in which they stood.
pub proof fn lemma_ordered<T>(list: Seq<T>, key: spec_fn(T) -> int, n: int)
    ensures
        ascends(ordered(list, key), key),
        ordered(list, key).to_multiset() == list.to_multiset(),
        with_key(ordered(list, key), key, n) == with_key(list, key, n),
    decreases list.len(),
{
    broadcast use vstd::seq_lib::group_to_multiset_ensures;

    let has = has_key(key, n);
    if list.len() > 0 {
        let head = list.drop_last();
        lemma_ordered(head, key, n);
        lemma_filed(ordered(head, key), list.last(), key, n);
        assert(list =~= head.push(list.last()));
        lemma_filter_push(head, list.last(), has);
        lemma_filter_push(ordered(head, key), list.last(), has);
        assert(list.to_multiset() =~= head.to_multiset().insert(list.last()));
    }
}

/// A list that ascends is in order.
pub proof fn lemma_ordered_already<T>(list: Seq<T>, key: spec_fn(T) -> int)
    requires
        ascends(list, key),
    ensures
        ordered(list, key) == list,
    decreases list.len(),
{
    if list.len() > 0 {
        let head = list.drop_last();
        assert(ascends(head, key)) by {
            assert forall|i: int, j: int| 0 <= i < j < head.len() implies key(
                #[trigger] head[i],
            ) <= key(#[trigger] head[j]) by {
                assert(key(list[i]) <= key(list[j]));
            }
        }
        lemma_ordered_already(head, key);
        if head.len() > 0 {
            assert(key(list[list.len() - 2]) <= key(list[list.len() - 1]));
        }
        assert(list =~= head.push(list.last()));
    }
}

/// It makes no difference whether members are put in order before or after each of them
/// is mapped to something with the same key.
pub proof fn lemma_ordered_maps<T, U>(
    list: Seq<T>,
    key: spec_fn(T) -> int,
    f: spec_fn(T) -> U,
    mapped_key: spec_fn(U) -> int,
)
    requires
        forall|t: T| mapped_key(#[trigger] f(t)) == key(t),
    ensures
        ordered(list, key).map_values(f) == ordered(list.map_values(f), mapped_key),
    decreases list.len(),
{
    if list.len() == 0 {
        assert(list.map_values(f) =~= Seq::<U>::empty());
    } else {
        let head = list.drop_last();
        lemma_ordered_maps(head, key, f, mapped_key);
        lemma_filed_maps(ordered(head, key), list.last(), key, f, mapped_key);
        assert(list.map_values(f).drop_last() =~= head.map_values(f));
        assert(list.map_values(f).last() == f(list.last()));
    }
}

/// The same of filing one member.
proof fn lemma_filed_maps<T, U>(
    list: Seq<T>,
    e: T,
    key: spec_fn(T) -> int,
    f: spec_fn(T) -> U,
    mapped_key: spec_fn(U) -> int,
)
    requires
        forall|t: T| mapped_key(#[trigger] f(t)) == key(t),
    ensures
        filed(list, e, key).map_values(f) == filed(list.map_values(f), f(e), mapped_key),
    decreases list.len(),
{
    let mapped = list.map_values(f);
    if list.len() > 0 {
        assert(mapped.last() == f(list.last()));
        assert(mapped_key(f(list.last())) == key(list.last()));
    }
    assert(mapped_key(f(e)) == key(e));
    if list.len() == 0 || key(list.last()) <= key(e) {
        assert(list.push(e).map_values(f) =~= mapped.push(f(e)));
    } else {
        let rest = list.drop_last();
        lemma_filed_maps(rest, e, key, f, mapped_key);
        assert(mapped.drop_last() =~= rest.map_values(f));
        assert(filed(rest, e, key).push(list.last()).map_values(f) =~= filed(
            rest,
            e,
            key,
        ).map_values(f).push(f(list.last())));
    }
}

/// What can be put in order by a number of its own.
pub trait Keyed: Sized {
    spec fn key(&self) -> int;

    /// That number.
    fn number(&self) -> (r: i32)
        ensures
            r == self.key(),
    ;
}

/// Files `e` behind every member whose key is not higher.
fn file<T: Keyed>(list: &mut Vec<T>, e: T)
    ensures
        final(list)@ == filed(old(list)@, e, |t: T| t.key()),
{
    let ghost all = list@;
    let ghost key = |t: T| t.key();
    let mut at: usize = list.len();
    let ghost mut tail = Seq::<T>::empty();
    assert(all.take(at as int) =~= all);
    assert(filed(all, e, key) =~= filed(all.take(at as int), e, key) + tail);
    while at > 0 && list[at - 1].number() > e.number()
        invariant
            at <= list.len(),
            list@ == all,
            key == (|t: T| t.key()),
            tail == all.skip(at as int),
            filed(all, e, key) == filed(all.take(at as int), e, key) + tail,
        decreases at,
    {
        proof {
            let head = all.take(at as int);
            assert(head.drop_last() =~= all.take(at - 1));
            assert(filed(all, e, key) =~= filed(all.take(at - 1), e, key) + (seq![head.last()]
                + tail));
            tail = seq![head.last()] + tail;
            assert(tail =~= all.skip(at - 1));
        }
        at = at - 1;
    }
    assert(filed(all.take(at as int), e, key) == all.take(at as int).push(e));
    list.insert(at, e);
    assert(list@ =~= all.take(at as int).push(e) + tail);
}

/// Puts the members of `list` in order of their keys.
pub fn put_in_order<T: Keyed>(list: Vec<T>) -> (r: Vec<T>)
    ensures
        r@ == ordered(list@, |t: T| t.key()),
{
    let ghost all = list@;
    let ghost key = |t: T| t.key();
    let mut left = list;
    let mut r: Vec<T> = Vec::new();
    let ghost mut done: int = 0;
    assert(all.take(0) =~= Seq::<T>::empty());
    assert(all.skip(0) =~= all);
    while left.len() > 0
        invariant
            0 <= done <= all.len(),
            key == (|t: T| t.key()),
            left@ == all.skip(done),
            r@ == ordered(all.take(done), key),
        decreases left.len(),
    {
        let e = left.remove(0);
        proof {
            assert(all.take(done + 1).drop_last() =~= all.take(done));
            assert(all.take(done + 1).last() == e);
            assert(left@ =~= all.skip(done + 1));
        }
        file(&mut r, e);
        proof {
            done = done + 1;
        }
    }
    assert(all.take(done) =~= all);
    r
}

} // verus!
