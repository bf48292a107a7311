//! Stable ordering by a key: the order in which the positions of a list are
//! to be read so that the keys ascend, equal keys keeping their places.

use vstd::prelude::*;

verus! {

/// `order` with the position `x` put in: behind the positions whose key is
/// not greater than that of `x`, before the others.
pub open spec fn insert_position(order: Seq<int>, keys: Seq<int>, x: int) -> Seq<int>
    decreases order.len(),
{
    if order.len() == 0 {
        seq![x]
    } else if keys[order.last()] <= keys[x] {
        order.push(x)
    } else {
        insert_position(order.drop_last(), keys, x).push(order.last())
    }
}

/// The first `n` positions of `keys`, ordered by key, positions of equal key
/// in ascending order.
pub open spec fn stable_order_of_first(keys: Seq<int>, n: nat) -> Seq<int>
    decreases n,
{
    if n == 0 {
        Seq::empty()
    } else {
        insert_position(stable_order_of_first(keys, (n - 1) as nat), keys, n - 1)
    }
}

/// The positions of `keys`, ordered by key, positions of equal key in
/// ascending order.
pub open spec fn stable_order(keys: Seq<int>) -> Seq<int> {
    stable_order_of_first(keys, keys.len())
}

/// Whether `order` lists positions below `n` by ascending key, those of
/// equal key by ascending position.
pub open spec fn is_stably_ordered(order: Seq<int>, keys: Seq<int>, n: int) -> bool {
    &&& forall|i: int| 0 <= i < order.len() ==> 0 <= #[trigger] order[i] < n
    &&& forall|i: int, j: int|
        0 <= i < j < order.len() ==> keys[#[trigger] order[i]] < keys[#[trigger] order[j]] || (
        keys[order[i]] == keys[order[j]] && order[i] < order[j])
}

proof fn lemma_insert_position(order: Seq<int>, keys: Seq<int>, x: int)
    requires
        0 <= x < keys.len(),
        is_stably_ordered(order, keys, x),
    ensures
        is_stably_ordered(insert_position(order, keys, x), keys, x + 1),
        insert_position(order, keys, x).len() == order.len() + 1,
        insert_position(order, keys, x).to_multiset() == order.to_multiset().insert(x),
    decreases order.len(),
{
    broadcast use vstd::seq_lib::group_to_multiset_ensures;

    let out = insert_position(order, keys, x);
    if order.len() == 0 {
        assert(out =~= Seq::<int>::empty().push(x));
    } else if keys[order.last()] <= keys[x] {
        assert forall|i: int, j: int| 0 <= i < j < out.len() implies keys[#[trigger] out[i]]
            < keys[#[trigger] out[j]] || (keys[out[i]] == keys[out[j]] && out[i] < out[j]) by {
            if j == out.len() - 1 {
                if i < order.len() - 1 {
                    assert(keys[order[i]] <= keys[order[order.len() - 1]]);
                }
                assert(order[i] < x);
            }
        }
    } else {
        let front = order.drop_last();
        assert forall|i: int| 0 <= i < front.len() implies front[i] == order[i] by {}
        lemma_insert_position(front, keys, x);
        let inner = insert_position(front, keys, x);
        assert(order =~= front.push(order.last()));
        assert forall|i: int| 0 <= i < inner.len() implies keys[#[trigger] inner[i]]
            < keys[order.last()] || (keys[inner[i]] == keys[order.last()] && inner[i]
            < order.last()) by {
            assert(inner.to_multiset().contains(inner[i]));
            if inner[i] != x {
                assert(front.to_multiset().contains(inner[i]));
                let k = choose|k: int| 0 <= k < front.len() && front[k] == inner[i];
                assert(order[k] == inner[i]);
                assert(k < order.len() - 1);
            }
        }
        assert forall|i: int, j: int| 0 <= i < j < out.len() implies keys[#[trigger] out[i]]
            < keys[#[trigger] out[j]] || (keys[out[i]] == keys[out[j]] && out[i] < out[j]) by {
            if j < inner.len() {
                assert(out[i] == inner[i] && out[j] == inner[j]);
            } else {
                assert(out[i] == inner[i]);
            }
        }
    }
}

/// The stable order lists each of the first `n` positions once, by
/// ascending key, positions of equal key in ascending order.
pub proof fn lemma_stable_order_of_first(keys: Seq<int>, n: nat)
    requires
        n <= keys.len(),
    ensures
        is_stably_ordered(stable_order_of_first(keys, n), keys, n as int),
        stable_order_of_first(keys, n).len() == n,
        forall|x: int|
            0 <= x < n ==> #[trigger] stable_order_of_first(keys, n).to_multiset().count(x) == 1,
    decreases n,
{
    broadcast use vstd::seq_lib::group_to_multiset_ensures;

    if n > 0 {
        lemma_stable_order_of_first(keys, (n - 1) as nat);
        let before = stable_order_of_first(keys, (n - 1) as nat);
        lemma_insert_position(before, keys, n - 1);
        assert(before.to_multiset().count(n - 1) == 0) by {
            if before.to_multiset().count(n - 1) > 0 {
                assert(before.to_multiset().contains(n - 1));
                let k = choose|k: int| 0 <= k < before.len() && before[k] == n - 1;
                assert(before[k] < n - 1);
            }
        }
    }
}

/// The stable order of a list of keys is a permutation of its positions,
/// read in which the keys never descend and equal keys keep their places.
pub proof fn lemma_stable_order(keys: Seq<int>)
    ensures
        is_stably_ordered(stable_order(keys), keys, keys.len() as int),
        stable_order(keys).len() == keys.len(),
        forall|x: int|
            0 <= x < keys.len() ==> #[trigger] stable_order(keys).to_multiset().count(x) == 1,
{
    lemma_stable_order_of_first(keys, keys.len());
}

/// The keys as integers.
pub open spec fn keys_of(keys: Seq<u64>) -> Seq<int> {
    keys.map_values(|k: u64| k as int)
}

/// The positions of `keys` in stable ascending order of key.
pub fn stable_order_by_key(keys: &Vec<u64>) -> (r: Vec<usize>)
    ensures
        r@.map_values(|p: usize| p as int) == stable_order(keys_of(keys@)),
{
    let ghost ks = keys_of(keys@);
    let mut order: Vec<usize> = Vec::new();
    let mut n: usize = 0;
    assert(order@.map_values(|p: usize| p as int) =~= stable_order_of_first(ks, 0));
    while n < keys.len()
        invariant
            n <= keys.len(),
            ks == keys_of(keys@),
            order@.map_values(|p: usize| p as int) == stable_order_of_first(ks, n as nat),
        decreases keys.len() - n,
    {
        proof {
            lemma_stable_order_of_first(ks, n as nat);
        }
        let ghost before = order@.map_values(|p: usize| p as int);
        // Find where the new position goes: behind the last position whose
        // key is not greater.
        let mut at: usize = order.len();
        assert(before.take(at as int) =~= before);
        assert(insert_position(before, ks, n as int) + before.skip(at as int)
            =~= insert_position(before, ks, n as int));
        while at > 0 && keys[order[at - 1]] > keys[n]
            invariant
                at <= order.len(),
                n < keys.len(),
                ks == keys_of(keys@),
                before == order@.map_values(|p: usize| p as int),
                forall|i: int| 0 <= i < before.len() ==> 0 <= #[trigger] before[i] < n,
                insert_position(before, ks, n as int) == insert_position(
                    before.take(at as int),
                    ks,
                    n as int,
                ) + before.skip(at as int),
            decreases at,
        {
            assert(before[at - 1] == order@[at - 1] as int);
            let ghost part = before.take(at as int);
            assert(part.last() == before[at - 1]);
            assert(part.drop_last() =~= before.take(at - 1));
            assert(insert_position(part, ks, n as int) == insert_position(
                part.drop_last(),
                ks,
                n as int,
            ).push(part.last()));
            assert(insert_position(before.take(at - 1), ks, n as int).push(before[at - 1])
                + before.skip(at as int) =~= insert_position(before.take(at - 1), ks, n as int)
                + before.skip(at - 1));
            at -= 1;
        }
        proof {
            let part = before.take(at as int);
            if at > 0 {
                assert(before[at - 1] == order@[at - 1] as int);
                assert(part.last() == before[at - 1]);
                assert(insert_position(part, ks, n as int) == part.push(n as int));
            } else {
                assert(part =~= Seq::<int>::empty());
                assert(insert_position(part, ks, n as int) =~= part.push(n as int));
            }
        }
        order.insert(at, n);
        assert(order@.map_values(|p: usize| p as int) =~= before.take(at as int).push(n as int)
            + before.skip(at as int));
        n += 1;
    }
    order
}

/// The items at the given positions, in the order of the positions.
pub open spec fn in_order<T>(items: Seq<T>, order: Seq<int>) -> Seq<T> {
    order.map_values(|p: int| items[p])
}

/// The items in stable ascending order of their keys.
pub open spec fn sorted_by_key<T>(items: Seq<T>, keys: Seq<int>) -> Seq<T> {
    in_order(items, stable_order(keys))
}

/// A value that can be copied, the copy having the view of what was
/// copied.
pub trait Record: DeepView + Sized {
    /// A copy of the value.
    fn duplicate(&self) -> (r: Self)
        ensures
            r.deep_view() == self.deep_view(),
    ;
}

/// A copy of each item, in the same order.
pub fn copy_all<T: Record>(items: &[T]) -> (r: Vec<T>)
    ensures
        r.deep_view() == items.deep_view(),
        r.len() == items.len(),
{
    let mut out: Vec<T> = Vec::new();
    let mut i: usize = 0;
    while i < items.len()
        invariant
            i <= items.len(),
            out.len() == i,
            forall|j: int| 0 <= j < i ==> out@[j].deep_view() == items@[j].deep_view(),
        decreases items.len() - i,
    {
        out.push(items[i].duplicate());
        i += 1;
    }
    assert(out.deep_view() =~= items.deep_view());
    out
}

/// The items arranged by keys, one key to each item: in stable ascending
/// order of the keys. Left in their own order where the keys are not as
/// many as the items.
pub open spec fn arranged<T>(items: Seq<T>, keys: Seq<int>) -> Seq<T> {
    if keys.len() == items.len() {
        sorted_by_key(items, keys)
    } else {
        items
    }
}

/// Copies of the items, arranged by the keys.
pub fn arrange<T: Record>(items: &[T], keys: &Vec<u64>) -> (r: Vec<T>)
    ensures
        r.deep_view() == arranged(items.deep_view(), keys_of(keys@)),
        r.len() == items.len(),
{
    if keys.len() != items.len() {
        return copy_all(items);
    }
    let ghost views = items.deep_view();
    let order = stable_order_by_key(keys);
    let ghost positions = order@.map_values(|p: usize| p as int);
    proof {
        lemma_stable_order(keys_of(keys@));
    }
    let mut out: Vec<T> = Vec::new();
    let mut k: usize = 0;
    while k < order.len()
        invariant
            k <= order.len(),
            views == items.deep_view(),
            order.len() == items.len(),
            positions == order@.map_values(|p: usize| p as int),
            forall|j: int| 0 <= j < positions.len() ==> 0 <= #[trigger] positions[j] < views.len(),
            out.len() == k,
            forall|j: int| 0 <= j < k ==> out@[j].deep_view() == views[positions[j]],
        decreases order.len() - k,
    {
        assert(positions[k as int] == order@[k as int]);
        out.push(items[order[k]].duplicate());
        k += 1;
    }
    assert(out.deep_view() =~= sorted_by_key(views, keys_of(keys@)));
    out
}

/// In a list arranged by keys, one key to each item, the keys never
/// descend: the item at an earlier place has no greater key than one at a
/// later place.
pub proof fn lemma_arranged_ascends<T>(items: Seq<T>, keys: Seq<int>, i: int, j: int)
    requires
        keys.len() == items.len(),
        0 <= i < j < items.len(),
    ensures
        arranged(items, keys).len() == items.len(),
        arranged(items, keys)[i] == items[stable_order(keys)[i]],
        arranged(items, keys)[j] == items[stable_order(keys)[j]],
        0 <= stable_order(keys)[i] < items.len(),
        0 <= stable_order(keys)[j] < items.len(),
        keys[stable_order(keys)[i]] <= keys[stable_order(keys)[j]],
{
    lemma_stable_order(keys);
}

} // verus!
