//! Sequences built piece by piece.

use vstd::prelude::*;

verus! {

/// What the pieces of all elements make up, one after the other.
pub open spec fn concat_map<A, B>(list: Seq<A>, piece: spec_fn(A) -> Seq<B>) -> Seq<B>
    decreases list.len(),
{
    if list.len() == 0 {
        Seq::empty()
    } else {
        concat_map(list.drop_last(), piece) + piece(list.last())
    }
}

/// One more element adds its piece at the end.
pub proof fn concat_map_step<A, B>(list: Seq<A>, k: int, piece: spec_fn(A) -> Seq<B>)
    requires
        0 <= k < list.len(),
    ensures
        concat_map(list.take(k + 1), piece) == concat_map(list.take(k), piece) + piece(list[k]),
{
    assert(list.take(k + 1).drop_last() =~= list.take(k));
    assert(list.take(k + 1).last() == list[k]);
}

/// The first element gives the piece at the front.
pub proof fn concat_map_first<A, B>(list: Seq<A>, piece: spec_fn(A) -> Seq<B>)
    requires
        list.len() > 0,
    ensures
        concat_map(list, piece) == piece(list[0]) + concat_map(list.skip(1), piece),
    decreases list.len(),
{
    if list.len() == 1 {
        assert(concat_map(list.drop_last(), piece) =~= Seq::<B>::empty());
        assert(concat_map(list.skip(1), piece) =~= Seq::<B>::empty());
        assert(concat_map(list, piece) =~= piece(list[0]) + concat_map(list.skip(1), piece));
    } else {
        concat_map_first(list.drop_last(), piece);
        assert(list.drop_last().skip(1) =~= list.skip(1).drop_last());
        assert(list.skip(1).last() == list.last());
        assert(concat_map(list, piece) =~= piece(list[0]) + concat_map(list.skip(1), piece));
    }
}

/// The elements that meet a condition, in order.
pub open spec fn keep<A>(list: Seq<A>, wanted: spec_fn(A) -> bool) -> Seq<A>
    decreases list.len(),
{
    if list.len() == 0 {
        Seq::empty()
    } else if wanted(list.last()) {
        keep(list.drop_last(), wanted).push(list.last())
    } else {
        keep(list.drop_last(), wanted)
    }
}

/// One more element is kept if it meets the condition.
pub proof fn keep_step<A>(list: Seq<A>, k: int, wanted: spec_fn(A) -> bool)
    requires
        0 <= k < list.len(),
    ensures
        keep(list.take(k + 1), wanted) == (if wanted(list[k]) {
            keep(list.take(k), wanted).push(list[k])
        } else {
            keep(list.take(k), wanted)
        }),
{
    assert(list.take(k + 1).drop_last() =~= list.take(k));
    assert(list.take(k + 1).last() == list[k]);
}

/// What is kept depends only on which elements meet the condition.
pub proof fn keep_same<A>(list: Seq<A>, a: spec_fn(A) -> bool, b: spec_fn(A) -> bool)
    requires
        forall|i: int| 0 <= i < list.len() ==> a(#[trigger] list[i]) == b(list[i]),
    ensures
        keep(list, a) == keep(list, b),
    decreases list.len(),
{
    if list.len() > 0 {
        assert forall|i: int| 0 <= i < list.drop_last().len() implies a(#[trigger] list.drop_last()[i]) == b(list.drop_last()[i]) by {
            assert(list.drop_last()[i] == list[i]);
        }
        keep_same(list.drop_last(), a, b);
        assert(a(list[list.len() - 1]) == b(list[list.len() - 1]));
    }
}

/// What the pieces of the first `n` numbers make up, one after the other.
pub open spec fn concat_range<B>(n: int, piece: spec_fn(int) -> Seq<B>) -> Seq<B>
    decreases n,
{
    if n <= 0 {
        Seq::empty()
    } else {
        concat_range(n - 1, piece) + piece(n - 1)
    }
}

/// The mapping with an entry for each key that has none yet, the first of those given for it.
pub open spec fn first_wins<K, V>(base: Map<K, V>, entries: Seq<(K, V)>) -> Map<K, V>
    decreases entries.len(),
{
    if entries.len() == 0 {
        base
    } else {
        let before = first_wins(base, entries.drop_last());
        let (key, value) = entries.last();
        if before.contains_key(key) {
            before
        } else {
            before.insert(key, value)
        }
    }
}

/// One more entry counts only where its key has none yet.
pub proof fn first_wins_push<K, V>(base: Map<K, V>, entries: Seq<(K, V)>, entry: (K, V))
    ensures
        first_wins(base, entries.push(entry)) == (if first_wins(base, entries).contains_key(entry.0) {
            first_wins(base, entries)
        } else {
            first_wins(base, entries).insert(entry.0, entry.1)
        }),
{
    assert(entries.push(entry).drop_last() =~= entries);
}

/// Entries can be given in two goes.
pub proof fn first_wins_split<K, V>(base: Map<K, V>, a: Seq<(K, V)>, b: Seq<(K, V)>)
    ensures
        first_wins(base, a + b) == first_wins(first_wins(base, a), b),
    decreases b.len(),
{
    if b.len() == 0 {
        assert(a + b =~= a);
    } else {
        first_wins_split(base, a, b.drop_last());
        assert((a + b).drop_last() =~= a + b.drop_last());
    }
}

/// A list back to front.
pub fn reversed<T>(list: Vec<T>) -> (r: Vec<T>)
    ensures
        r@ == list@.reverse(),
{
    let ghost all = list@;
    let mut rest: Vec<T> = list;
    let mut back: Vec<T> = Vec::new();
    while rest.len() > 0
        invariant
            all.len() == rest@.len() + back@.len(),
            forall|i: int| 0 <= i < rest@.len() ==> #[trigger] rest@[i] == all[i],
            forall|i: int| 0 <= i < back@.len() ==> #[trigger] back@[i] == all[all.len() - 1 - i],
        decreases rest@.len(),
    {
        match rest.pop() {
            Some(item) => {
                back.push(item);
            },
            None => {},
        }
    }
    assert(back@ =~= all.reverse());
    back
}

/// The mapping in which the last entry for a key counts.
pub open spec fn last_wins<K, V>(entries: Seq<(K, V)>) -> Map<K, V>
    decreases entries.len(),
{
    if entries.len() == 0 {
        Map::empty()
    } else {
        last_wins(entries.drop_last()).insert(entries.last().0, entries.last().1)
    }
}

/// One more entry counts.
pub proof fn last_wins_step<K, V>(entries: Seq<(K, V)>, k: int)
    requires
        0 <= k < entries.len(),
    ensures
        last_wins(entries.take(k + 1)) == last_wins(entries.take(k)).insert(entries[k].0, entries[k].1),
{
    assert(entries.take(k + 1).drop_last() =~= entries.take(k));
    assert(entries.take(k + 1).last() == entries[k]);
}

} // verus!
