//! Sets and maps that keep their keys in ascending order.

use crate::text::{chars_lt, chars_lt_irreflexive, chars_lt_total, chars_lt_transitive, compare_text, Order};
use vstd::prelude::*;

verus! {

/// Lexicographic order on lists of texts, component by component.
pub open spec fn key_lt(a: Seq<Seq<char>>, b: Seq<Seq<char>>) -> bool
    decreases a.len(),
{
    if b.len() == 0 {
        false
    } else if a.len() == 0 {
        true
    } else {
        chars_lt(a[0], b[0]) || (a[0] == b[0] && key_lt(a.drop_first(), b.drop_first()))
    }
}

/// No key sorts before itself.
pub proof fn key_lt_irreflexive(a: Seq<Seq<char>>)
    ensures
        !key_lt(a, a),
    decreases a.len(),
{
    if a.len() > 0 {
        chars_lt_irreflexive(a[0]);
        key_lt_irreflexive(a.drop_first());
    }
}

/// The key order is transitive.
pub proof fn key_lt_transitive(a: Seq<Seq<char>>, b: Seq<Seq<char>>, c: Seq<Seq<char>>)
    requires
        key_lt(a, b),
        key_lt(b, c),
    ensures
        key_lt(a, c),
    decreases a.len(),
{
    if a.len() > 0 {
        if chars_lt(a[0], b[0]) && chars_lt(b[0], c[0]) {
            chars_lt_transitive(a[0], b[0], c[0]);
        } else if a[0] == b[0] && b[0] == c[0] {
            if key_lt(a.drop_first(), b.drop_first()) && key_lt(b.drop_first(), c.drop_first()) {
                key_lt_transitive(a.drop_first(), b.drop_first(), c.drop_first());
            } else {
                chars_lt_irreflexive(a[0]);
            }
        }
    }
}

/// Of two keys one sorts before the other, or they are equal.
pub proof fn key_lt_total(a: Seq<Seq<char>>, b: Seq<Seq<char>>)
    ensures
        key_lt(a, b) || a == b || key_lt(b, a),
    decreases a.len(),
{
    if a.len() == 0 || b.len() == 0 {
        if a.len() == b.len() {
            assert(a =~= b);
        }
    } else {
        chars_lt_total(a[0], b[0]);
        if a[0] == b[0] {
            key_lt_total(a.drop_first(), b.drop_first());
            if a.drop_first() == b.drop_first() {
                assert(a =~= seq![a[0]] + a.drop_first());
                assert(b =~= seq![b[0]] + b.drop_first());
            }
        }
    }
}

/// Keys of two texts sort by the first, and where those agree by the second.
pub proof fn key_lt_of_pairs(a: Seq<char>, b: Seq<char>, c: Seq<char>, d: Seq<char>)
    ensures
        key_lt(seq![a, b], seq![c, d]) == (chars_lt(a, c) || (a == c && chars_lt(b, d))),
{
    let p = seq![a, b];
    let q = seq![c, d];
    assert(p[0] == a && q[0] == c);
    assert(p.drop_first() =~= seq![b]);
    assert(q.drop_first() =~= seq![d]);
    assert(seq![b][0] == b && seq![d][0] == d);
    assert(seq![b].drop_first() =~= Seq::<Seq<char>>::empty());
    assert(seq![d].drop_first() =~= Seq::<Seq<char>>::empty());
    assert(!key_lt(seq![b].drop_first(), seq![d].drop_first()));
    assert(key_lt(seq![b], seq![d]) == chars_lt(b, d));
}

/// What comparing two keys yields.
pub open spec fn key_order(a: Seq<Seq<char>>, b: Seq<Seq<char>>) -> Order {
    if a == b {
        Order::Same
    } else if key_lt(a, b) {
        Order::Less
    } else {
        Order::Greater
    }
}

/// A value that sorts by a list of texts.
pub trait Key: Sized {
    /// The texts that the value sorts by.
    spec fn key(&self) -> Seq<Seq<char>>;

    /// Compares two values by their keys.
    fn compare(&self, other: &Self) -> (r: Order)
        ensures
            r == key_order(self.key(), other.key()),
    ;
}

impl Key for String {
    open spec fn key(&self) -> Seq<Seq<char>> {
        seq![self@]
    }

    fn compare(&self, other: &String) -> (r: Order) {
        let r: Order = compare_text(self.as_str(), other.as_str());
        proof {
            let a = seq![self@];
            let b = seq![other@];
            assert(a[0] == self@ && b[0] == other@);
            assert(a.drop_first() =~= Seq::<Seq<char>>::empty());
            assert(b.drop_first() =~= Seq::<Seq<char>>::empty());
            assert(!key_lt(a.drop_first(), b.drop_first()));
        }
        r
    }
}

/// The texts in a vector of strings.
pub open spec fn texts(list: Seq<String>) -> Seq<Seq<char>> {
    list.map_values(|s: String| s@)
}

impl Key for Vec<String> {
    open spec fn key(&self) -> Seq<Seq<char>> {
        texts(self@)
    }

    fn compare(&self, other: &Vec<String>) -> (r: Order) {
        let ghost a = texts(self@);
        let ghost b = texts(other@);
        let mut i: usize = 0;
        proof {
            assert(a.skip(0) =~= a);
            assert(b.skip(0) =~= b);
        }
        while i < self.len() && i < other.len()
            invariant
                a == texts(self@),
                b == texts(other@),
                i <= self.len(),
                i <= other.len(),
                a.take(i as int) =~= b.take(i as int),
                key_lt(a, b) == key_lt(a.skip(i as int), b.skip(i as int)),
            decreases self.len() - i,
        {
            let here: Order = compare_text(self[i].as_str(), other[i].as_str());
            proof {
                assert(a.skip(i as int).drop_first() =~= a.skip(i as int + 1));
                assert(b.skip(i as int).drop_first() =~= b.skip(i as int + 1));
                assert(a.skip(i as int)[0] == self@[i as int]@);
                assert(b.skip(i as int)[0] == other@[i as int]@);
                chars_lt_total(self@[i as int]@, other@[i as int]@);
                if here != Order::Same {
                    assert(a[i as int] != b[i as int]);
                    assert(a != b);
                } else {
                    chars_lt_irreflexive(self@[i as int]@);
                    assert(a.take(i as int + 1) =~= a.take(i as int).push(a[i as int]));
                    assert(b.take(i as int + 1) =~= b.take(i as int).push(b[i as int]));
                }
            }
            match here {
                Order::Same => {},
                _ => {
                    return here;
                },
            }
            i = i + 1;
        }
        if i == self.len() && i == other.len() {
            proof {
                assert(a =~= a.take(i as int));
                assert(b =~= b.take(i as int));
            }
            Order::Same
        } else if i == self.len() {
            Order::Less
        } else {
            Order::Greater
        }
    }
}

/// Whether the keys stand in strictly ascending order.
pub open spec fn ascending(keys: Seq<Seq<Seq<char>>>) -> bool {
    forall|i: int, j: int| 0 <= i < j < keys.len() ==> key_lt(#[trigger] keys[i], #[trigger] keys[j])
}

/// Ascending keys do not repeat.
pub proof fn ascending_distinct(keys: Seq<Seq<Seq<char>>>, i: int, j: int)
    requires
        ascending(keys),
        0 <= i < keys.len(),
        0 <= j < keys.len(),
        keys[i] == keys[j],
    ensures
        i == j,
{
    key_lt_irreflexive(keys[i]);
    if i < j {
        assert(key_lt(keys[i], keys[j]));
    } else if j < i {
        assert(key_lt(keys[j], keys[i]));
    }
}

/// An ascending listing is determined by the set of its keys.
pub proof fn ascending_unique(a: Seq<Seq<Seq<char>>>, b: Seq<Seq<Seq<char>>>)
    requires
        ascending(a),
        ascending(b),
        forall|k: Seq<Seq<char>>| a.contains(k) <==> b.contains(k),
    ensures
        a == b,
    decreases a.len(),
{
    if a.len() == 0 {
        if b.len() > 0 {
            assert(b.contains(b[0]));
            assert(a.contains(b[0]));
        }
        assert(a =~= b);
    } else {
        assert(a.contains(a[0]));
        assert(b.contains(a[0]));
        let j = choose|j: int| 0 <= j < b.len() && b[j] == a[0];
        assert(b.contains(b[0]));
        let i = choose|i: int| 0 <= i < a.len() && a[i] == b[0];
        if j > 0 && i > 0 {
            assert(key_lt(b[0], b[j]));
            assert(key_lt(a[0], a[i]));
            key_lt_transitive(a[0], b[0], a[0]);
            key_lt_irreflexive(a[0]);
        }
        assert(a[0] == b[0]);
        let ta = a.drop_first();
        let tb = b.drop_first();
        assert forall|k: Seq<Seq<char>>| ta.contains(k) <==> tb.contains(k) by {
            if ta.contains(k) {
                let x = choose|x: int| 0 <= x < ta.len() && ta[x] == k;
                assert(a[x + 1] == k);
                assert(a.contains(k));
                let y = choose|y: int| 0 <= y < b.len() && b[y] == k;
                if y == 0 {
                    ascending_distinct(a, 0, x + 1);
                }
                assert(tb[y - 1] == k);
            }
            if tb.contains(k) {
                let x = choose|x: int| 0 <= x < tb.len() && tb[x] == k;
                assert(b[x + 1] == k);
                assert(b.contains(k));
                let y = choose|y: int| 0 <= y < a.len() && a[y] == k;
                if y == 0 {
                    ascending_distinct(b, 0, x + 1);
                }
                assert(ta[y - 1] == k);
            }
        }
        ascending_unique(ta, tb);
        assert(a =~= seq![a[0]] + ta);
        assert(b =~= seq![b[0]] + tb);
    }
}

/// A map whose entries stand in ascending order of their keys.
pub struct SortedMap<K, V> {
    pub keys: Vec<K>,
    pub values: Vec<V>,
}

impl<K: Key, V> SortedMap<K, V> {
    /// The keys, in order.
    pub open spec fn listing(&self) -> Seq<Seq<Seq<char>>> {
        self.keys@.map_values(|k: K| k.key())
    }

    /// One value for each key, and the keys ascending.
    pub open spec fn wf(&self) -> bool {
        &&& self.keys@.len() == self.values@.len()
        &&& ascending(self.listing())
    }

    /// Whether some entry has the key.
    pub open spec fn has(&self, key: Seq<Seq<char>>) -> bool {
        exists|i: int| 0 <= i < self.keys@.len() && (#[trigger] self.keys@[i]).key() == key
    }

    /// The mapping from keys to values.
    pub open spec fn view(&self) -> Map<Seq<Seq<char>>, V> {
        Map::new(
            |k: Seq<Seq<char>>| self.has(k),
            |k: Seq<Seq<char>>| self.values@[self.position(k)],
        )
    }

    /// Where the key stands, if it has an entry.
    pub open spec fn position(&self, key: Seq<Seq<char>>) -> int {
        choose|i: int| 0 <= i < self.keys@.len() && (#[trigger] self.keys@[i]).key() == key
    }

    /// The value at a position is the one that its key maps to.
    pub proof fn entry(&self, i: int)
        requires
            self.wf(),
            0 <= i < self.keys@.len(),
        ensures
            self@.contains_key(self.keys@[i].key()),
            self@[self.keys@[i].key()] == self.values@[i],
    {
        let k = self.keys@[i].key();
        assert(self.has(k));
        let j = self.position(k);
        assert(self.listing()[i] == self.listing()[j]);
        ascending_distinct(self.listing(), i, j);
    }

    /// A map holds finitely many entries.
    pub proof fn finite(&self)
        ensures
            self@.dom().finite(),
    {
        let all = self.listing().to_set();
        vstd::seq_lib::seq_to_set_is_finite(self.listing());
        assert forall|k: Seq<Seq<char>>| self@.dom().contains(k) implies all.contains(k) by {
            let i = self.position(k);
            assert(self.listing()[i] == k);
        }
        vstd::set_lib::lemma_set_subset_finite(all, self@.dom());
    }

    /// A map has as many keys as entries.
    pub proof fn size(&self)
        requires
            self.wf(),
        ensures
            self@.dom().len() == self.keys@.len(),
            self@.dom() == self.listing().to_set(),
            self@.dom().finite(),
    {
        let all = self.listing();
        assert(all.no_duplicates()) by {
            assert forall|i: int, j: int| 0 <= i < all.len() && 0 <= j < all.len() && i != j implies all[i] != all[j] by {
                if all[i] == all[j] {
                    ascending_distinct(all, i, j);
                }
            }
        }
        all.unique_seq_to_set();
        assert forall|k: Seq<Seq<char>>| self@.dom().contains(k) <==> all.to_set().contains(k) by {
            if self.has(k) {
                assert(all[self.position(k)] == k);
            }
            if all.contains(k) {
                let i = choose|i: int| 0 <= i < all.len() && all[i] == k;
                self.entry(i);
            }
        }
        assert(self@.dom() =~= all.to_set());
        self.finite();
    }

    pub fn new() -> (r: SortedMap<K, V>)
        ensures
            r.wf(),
            r@ == Map::<Seq<Seq<char>>, V>::empty(),
            r.keys@.len() == 0,
    {
        let r: SortedMap<K, V> = SortedMap { keys: Vec::new(), values: Vec::new() };
        assert(r@ =~= Map::<Seq<Seq<char>>, V>::empty());
        r
    }

    /// Where the key stands, or where it would be put.
    pub fn search(&self, key: &K) -> (r: (bool, usize))
        requires
            self.wf(),
        ensures
            r.1 <= self.keys@.len(),
            r.0 == self.has(key.key()),
            r.0 ==> r.1 < self.keys@.len() && self.keys@[r.1 as int].key() == key.key(),
            !r.0 ==> forall|i: int| 0 <= i < r.1 ==> key_lt((#[trigger] self.keys@[i]).key(), key.key()),
            !r.0 ==> forall|i: int| r.1 <= i < self.keys@.len() ==> key_lt(key.key(), (#[trigger] self.keys@[i]).key()),
    {
        let mut low: usize = 0;
        let mut high: usize = self.keys.len();
        while low < high
            invariant
                self.wf(),
                low <= high <= self.keys@.len(),
                forall|j: int| 0 <= j < low ==> key_lt((#[trigger] self.keys@[j]).key(), key.key()),
                forall|j: int| high <= j < self.keys@.len() ==> key_lt(key.key(), (#[trigger] self.keys@[j]).key()),
            decreases high - low,
        {
            let middle: usize = low + (high - low) / 2;
            match self.keys[middle].compare(key) {
                Order::Same => {
                    return (true, middle);
                },
                Order::Less => {
                    proof {
                        assert forall|j: int| 0 <= j <= middle implies key_lt((#[trigger] self.keys@[j]).key(), key.key()) by {
                            if j < middle {
                                assert(key_lt(self.listing()[j], self.listing()[middle as int]));
                                key_lt_transitive(self.keys@[j].key(), self.keys@[middle as int].key(), key.key());
                            }
                        }
                    }
                    low = middle + 1;
                },
                Order::Greater => {
                    proof {
                        key_lt_total(self.keys@[middle as int].key(), key.key());
                        assert forall|j: int| middle <= j < self.keys@.len() implies key_lt(key.key(), (#[trigger] self.keys@[j]).key()) by {
                            if j > middle {
                                assert(key_lt(self.listing()[middle as int], self.listing()[j]));
                                key_lt_transitive(key.key(), self.keys@[middle as int].key(), self.keys@[j].key());
                            }
                        }
                    }
                    high = middle;
                },
            }
        }
        proof {
            assert forall|j: int| 0 <= j < self.keys@.len() implies (#[trigger] self.keys@[j]).key() != key.key() by {
                key_lt_irreflexive(key.key());
            }
        }
        (false, low)
    }

    /// Whether the key has an entry.
    pub fn contains_key(&self, key: &K) -> (r: bool)
        requires
            self.wf(),
        ensures
            r == self@.contains_key(key.key()),
    {
        self.search(key).0
    }

    /// The value that the key maps to.
    pub fn get(&self, key: &K) -> (r: Option<&V>)
        requires
            self.wf(),
        ensures
            r is Some <==> self@.contains_key(key.key()),
            r is Some ==> *r->0 == self@[key.key()],
    {
        let (found, at): (bool, usize) = self.search(key);
        if found {
            proof {
                self.entry(at as int);
            }
            Some(&self.values[at])
        } else {
            None
        }
    }

    proof fn lemma_inserted(&self, before: &SortedMap<K, V>, at: int, key: K, value: V)
        requires
            before.wf(),
            0 <= at <= before.keys@.len(),
            self.keys@ == before.keys@.insert(at, key),
            self.values@ == before.values@.insert(at, value),
            forall|i: int| 0 <= i < at ==> key_lt((#[trigger] before.keys@[i]).key(), key.key()),
            forall|i: int| at <= i < before.keys@.len() ==> key_lt(key.key(), (#[trigger] before.keys@[i]).key()),
        ensures
            self.wf(),
            self@ == before@.insert(key.key(), value),
    {
        assert forall|i: int, j: int| 0 <= i < j < self.listing().len() implies key_lt(#[trigger] self.listing()[i], #[trigger] self.listing()[j]) by {
            let x = if i < at { i } else { i - 1 };
            let y = if j < at { j } else { j - 1 };
            if i != at {
                assert(self.keys@[i] == before.keys@[x]);
                assert(before.listing()[x] == before.keys@[x].key());
            }
            if j != at {
                assert(self.keys@[j] == before.keys@[y]);
                assert(before.listing()[y] == before.keys@[y].key());
            }
            if i != at && j != at {
                assert(key_lt(before.listing()[x], before.listing()[y]));
            }
        }
        assert forall|k: Seq<Seq<char>>| self@.contains_key(k) <==> before@.insert(key.key(), value).contains_key(k) by {
            if self.has(k) {
                let i = choose|i: int| 0 <= i < self.keys@.len() && (#[trigger] self.keys@[i]).key() == k;
                if i != at {
                    let x = if i < at { i } else { i - 1 };
                    assert(self.keys@[i] == before.keys@[x]);
                    assert(before.has(k));
                }
            }
            if k == key.key() {
                assert(self.keys@[at] == key);
                assert(self.has(k));
            } else if before.has(k) {
                let i = choose|i: int| 0 <= i < before.keys@.len() && (#[trigger] before.keys@[i]).key() == k;
                let x = if i < at { i } else { i + 1 };
                assert(self.keys@[x] == before.keys@[i]);
                assert(self.has(k));
            }
        }
        assert forall|k: Seq<Seq<char>>| #[trigger] self@.contains_key(k) implies self@[k] == before@.insert(key.key(), value)[k] by {
            let i = choose|i: int| 0 <= i < self.keys@.len() && (#[trigger] self.keys@[i]).key() == k;
            self.entry(i);
            if i == at {
                assert(k == key.key());
            } else {
                let x = if i < at { i } else { i - 1 };
                assert(self.keys@[i] == before.keys@[x]);
                before.entry(x);
                key_lt_irreflexive(k);
                assert(k != key.key());
            }
        }
        assert(self@ =~= before@.insert(key.key(), value));
    }

    proof fn lemma_replaced(&self, before: &SortedMap<K, V>, at: int, value: V)
        requires
            before.wf(),
            0 <= at < before.keys@.len(),
            self.keys@ == before.keys@,
            self.values@ == before.values@.update(at, value),
        ensures
            self.wf(),
            self@ == before@.insert(before.keys@[at].key(), value),
    {
        let key = before.keys@[at].key();
        assert(self.listing() =~= before.listing());
        before.entry(at);
        assert forall|k: Seq<Seq<char>>| self@.contains_key(k) <==> before@.insert(key, value).contains_key(k) by {
            assert(self.has(k) == before.has(k));
        }
        assert forall|k: Seq<Seq<char>>| #[trigger] self@.contains_key(k) implies self@[k] == before@.insert(key, value)[k] by {
            let i = choose|i: int| 0 <= i < self.keys@.len() && (#[trigger] self.keys@[i]).key() == k;
            self.entry(i);
            before.entry(i);
            if k == key {
                assert(before.listing()[i] == before.listing()[at]);
                ascending_distinct(before.listing(), i, at);
            }
        }
        assert(self@ =~= before@.insert(key, value));
    }

    /// Maps the key to the value, whatever it mapped to before.
    pub fn insert(&mut self, key: K, value: V)
        requires
            old(self).wf(),
        ensures
            final(self).wf(),
            final(self)@ == old(self)@.insert(key.key(), value),
    {
        let (found, at): (bool, usize) = self.search(&key);
        if found {
            self.values.set(at, value);
            proof {
                self.lemma_replaced(old(self), at as int, value);
            }
        } else {
            let ghost k = key;
            self.keys.insert(at, key);
            self.values.insert(at, value);
            proof {
                self.lemma_inserted(old(self), at as int, k, value);
            }
        }
    }

    /// Maps the key to the value unless the key has an entry already.
    pub fn insert_absent(&mut self, key: K, value: V)
        requires
            old(self).wf(),
        ensures
            final(self).wf(),
            final(self)@ == (if old(self)@.contains_key(key.key()) {
                old(self)@
            } else {
                old(self)@.insert(key.key(), value)
            }),
    {
        let (found, at): (bool, usize) = self.search(&key);
        if !found {
            let ghost k = key;
            self.keys.insert(at, key);
            self.values.insert(at, value);
            proof {
                self.lemma_inserted(old(self), at as int, k, value);
            }
        }
    }

    /// Takes the key's entry out of the map.
    pub fn remove(&mut self, key: &K) -> (r: Option<V>)
        requires
            old(self).wf(),
        ensures
            final(self).wf(),
            final(self)@ == old(self)@.remove(key.key()),
            r is Some <==> old(self)@.contains_key(key.key()),
            r is Some ==> r->0 == old(self)@[key.key()],
    {
        let (found, at): (bool, usize) = self.search(key);
        if found {
            proof {
                self.entry(at as int);
            }
            self.keys.remove(at);
            let value: V = self.values.remove(at);
            proof {
                self.lemma_removed(old(self), at as int);
            }
            Some(value)
        } else {
            assert(self@ =~= old(self)@.remove(key.key()));
            None
        }
    }

    proof fn lemma_removed(&self, before: &SortedMap<K, V>, at: int)
        requires
            before.wf(),
            0 <= at < before.keys@.len(),
            self.keys@ == before.keys@.remove(at),
            self.values@ == before.values@.remove(at),
        ensures
            self.wf(),
            self@ == before@.remove(before.keys@[at].key()),
    {
        let key = before.keys@[at].key();
        assert forall|i: int, j: int| 0 <= i < j < self.listing().len() implies key_lt(#[trigger] self.listing()[i], #[trigger] self.listing()[j]) by {
            let x = if i < at { i } else { i + 1 };
            let y = if j < at { j } else { j + 1 };
            assert(self.keys@[i] == before.keys@[x]);
            assert(self.keys@[j] == before.keys@[y]);
            assert(key_lt(before.listing()[x], before.listing()[y]));
        }
        assert forall|k: Seq<Seq<char>>| self@.contains_key(k) <==> before@.remove(key).contains_key(k) by {
            if self.has(k) {
                let i = self.position(k);
                let x = if i < at { i } else { i + 1 };
                assert(self.keys@[i] == before.keys@[x]);
                assert(before.has(k));
                if k == key {
                    assert(before.listing()[x] == before.listing()[at]);
                    ascending_distinct(before.listing(), x, at);
                }
            }
            if k != key && before.has(k) {
                let i = before.position(k);
                let x = if i < at { i } else { i - 1 };
                assert(self.keys@[x] == before.keys@[i]);
                assert(self.has(k));
            }
        }
        assert forall|k: Seq<Seq<char>>| #[trigger] self@.contains_key(k) implies self@[k] == before@.remove(key)[k] by {
            let i = self.position(k);
            let x = if i < at { i } else { i + 1 };
            assert(self.keys@[i] == before.keys@[x]);
            self.entry(i);
            before.entry(x);
        }
        assert(self@ =~= before@.remove(key));
    }
}

/// What the values of a list sort by.
pub open spec fn keys<T: Key>(list: Seq<T>) -> Seq<Seq<Seq<char>>> {
    list.map_values(|item: T| item.key())
}

/// Whether keys stand in order; equal ones may stand side by side.
pub open spec fn in_order(keys: Seq<Seq<Seq<char>>>) -> bool {
    forall|i: int, j: int| 0 <= i < j < keys.len() ==> !key_lt(#[trigger] keys[j], #[trigger] keys[i])
}

/// Where a value belongs in a list that is in order: behind all that do not sort behind it.
fn place_for<T: Key>(list: &Vec<T>, item: &T) -> (r: usize)
    requires
        in_order(keys(list@)),
    ensures
        r <= list@.len(),
        forall|i: int| 0 <= i < r ==> !key_lt(item.key(), (#[trigger] list@[i]).key()),
        forall|i: int| r <= i < list@.len() ==> key_lt(item.key(), (#[trigger] list@[i]).key()),
{
    let mut low: usize = 0;
    let mut high: usize = list.len();
    while low < high
        invariant
            in_order(keys(list@)),
            low <= high <= list@.len(),
            forall|i: int| 0 <= i < low ==> !key_lt(item.key(), (#[trigger] list@[i]).key()),
            forall|i: int| high <= i < list@.len() ==> key_lt(item.key(), (#[trigger] list@[i]).key()),
        decreases high - low,
    {
        let middle: usize = low + (high - low) / 2;
        let here: Order = item.compare(&list[middle]);
        proof {
            let all = keys(list@);
            let m = middle as int;
            assert(all[m] == list@[m].key());
            key_lt_irreflexive(item.key());
            if here == Order::Less {
                assert forall|i: int| middle <= i < list@.len() implies key_lt(item.key(), (#[trigger] list@[i]).key()) by {
                    assert(all[i] == list@[i].key());
                    if i > m {
                        assert(!key_lt(all[i], all[m]));
                        key_lt_total(all[i], all[m]);
                        if key_lt(all[m], all[i]) {
                            key_lt_transitive(item.key(), all[m], all[i]);
                        }
                    }
                }
            } else {
                assert forall|i: int| 0 <= i <= middle implies !key_lt(item.key(), (#[trigger] list@[i]).key()) by {
                    assert(all[i] == list@[i].key());
                    if i < m && key_lt(item.key(), all[i]) {
                        assert(!key_lt(all[m], all[i]));
                        key_lt_total(all[m], all[i]);
                        if key_lt(all[i], all[m]) {
                            key_lt_transitive(item.key(), all[i], all[m]);
                        }
                    }
                }
            }
        }
        match here {
            Order::Less => {
                high = middle;
            },
            _ => {
                low = middle + 1;
            },
        }
    }
    low
}

/// Brings a list in order.
pub fn sorted<T: Key>(list: Vec<T>) -> (r: Vec<T>)
    ensures
        in_order(keys(r@)),
        r@.to_multiset() == list@.to_multiset(),
{
    let ghost all = list@;
    let mut rest: Vec<T> = crate::seqs::reversed(list);
    let mut done: Vec<T> = Vec::new();
    let ghost mut k: int = 0;
    assert(all.take(0) =~= Seq::<T>::empty());
    while rest.len() > 0
        invariant
            0 <= k <= all.len(),
            rest@.len() == all.len() - k,
            forall|j: int| 0 <= j < rest@.len() ==> #[trigger] rest@[j] == all[all.len() - 1 - j],
            in_order(keys(done@)),
            done@.to_multiset() == all.take(k).to_multiset(),
        decreases rest@.len(),
    {
        match rest.pop() {
            Some(item) => {
                let at: usize = place_for(&done, &item);
                let ghost before = done@;
                let ghost added = item;
                done.insert(at, item);
                proof {
                    vstd::seq_lib::to_multiset_insert(before, at as int, added);
                    assert(all.take(k + 1) =~= all.take(k).push(all[k]));
                    vstd::seq_lib::to_multiset_build(all.take(k), all[k]);
                    let old_keys = keys(before);
                    let new_keys = keys(done@);
                    assert forall|i: int, j: int| 0 <= i < j < new_keys.len() implies !key_lt(
                        #[trigger] new_keys[j],
                        #[trigger] new_keys[i],
                    ) by {
                        let x = if i < at { i } else { i - 1 };
                        let y = if j < at { j } else { j - 1 };
                        if i != at {
                            assert(done@[i] == before[x]);
                            assert(old_keys[x] == before[x].key());
                        }
                        if j != at {
                            assert(done@[j] == before[y]);
                            assert(old_keys[y] == before[y].key());
                        }
                        if i == at {
                            key_lt_irreflexive(added.key());
                            if key_lt(before[y].key(), added.key()) {
                                key_lt_transitive(added.key(), before[y].key(), added.key());
                            }
                        } else if j != at {
                            assert(!key_lt(old_keys[y], old_keys[x]));
                        }
                    }
                    k = k + 1;
                }
            },
            None => {},
        }
    }
    assert(all.take(all.len() as int) =~= all);
    done
}

/// The keys of a set, in ascending order.
pub open spec fn listed(set: Set<Seq<Seq<char>>>) -> Seq<Seq<Seq<char>>> {
    choose|list: Seq<Seq<Seq<char>>>| ascending(list) && #[trigger] list.to_set() == set
}

/// There is but one ascending list of the keys of a set.
pub proof fn listed_is(list: Seq<Seq<Seq<char>>>)
    requires
        ascending(list),
    ensures
        listed(list.to_set()) == list,
{
    let other = listed(list.to_set());
    assert(ascending(other) && other.to_set() == list.to_set());
    assert forall|k: Seq<Seq<char>>| list.contains(k) <==> other.contains(k) by {
        assert(list.to_set().contains(k) == other.to_set().contains(k));
    }
    ascending_unique(list, other);
}

spec fn with_key(list: Seq<Seq<Seq<char>>>, key: Seq<Seq<char>>) -> Seq<Seq<Seq<char>>>
    decreases list.len(),
{
    if list.len() == 0 {
        seq![key]
    } else if key_lt(list.last(), key) {
        list.push(key)
    } else {
        with_key(list.drop_last(), key).push(list.last())
    }
}

proof fn with_key_lists(list: Seq<Seq<Seq<char>>>, key: Seq<Seq<char>>)
    requires
        ascending(list),
        !list.contains(key),
    ensures
        ascending(with_key(list, key)),
        forall|other: Seq<Seq<char>>| #[trigger] with_key(list, key).contains(other) <==> other == key || list.contains(other),
    decreases list.len(),
{
    let result = with_key(list, key);
    if list.len() == 0 {
        assert(result[0] == key);
    } else if key_lt(list.last(), key) {
        assert forall|i: int, j: int| 0 <= i < j < result.len() implies #[trigger] key_lt(result[i], result[j]) by {
            if j == list.len() && i < list.len() - 1 {
                assert(key_lt(list[i], list[list.len() - 1]));
                key_lt_transitive(list[i], list.last(), key);
            }
            if j < list.len() {
                assert(key_lt(list[i], list[j]));
            }
        }
        assert(result[list.len() as int] == key);
        assert forall|other: Seq<Seq<char>>| list.contains(other) implies #[trigger] result.contains(other) by {
            let i = list.index_of(other);
            assert(result[i] == other);
        }
    } else {
        let shorter = list.drop_last();
        let last = list.last();
        let inner = with_key(shorter, key);
        assert(ascending(shorter)) by {
            assert forall|i: int, j: int| 0 <= i < j < shorter.len() implies #[trigger] key_lt(shorter[i], shorter[j]) by {
                assert(key_lt(list[i], list[j]));
            }
        }
        assert(!shorter.contains(key)) by {
            if shorter.contains(key) {
                let i = shorter.index_of(key);
                assert(list[i] == key);
            }
        }
        with_key_lists(shorter, key);
        assert(last != key) by {
            assert(list[list.len() - 1] == last);
        }
        key_lt_total(last, key);
        assert forall|i: int, j: int| 0 <= i < j < result.len() implies #[trigger] key_lt(result[i], result[j]) by {
            if j < inner.len() {
                assert(key_lt(inner[i], inner[j]));
            } else {
                assert(inner.contains(inner[i]));
                if inner[i] != key {
                    let k = shorter.index_of(inner[i]);
                    assert(key_lt(list[k], list[list.len() - 1]));
                }
            }
        }
        assert forall|other: Seq<Seq<char>>| #[trigger] result.contains(other) <==> other == key || list.contains(other) by {
            if result.contains(other) {
                let i = result.index_of(other);
                if i < inner.len() {
                    assert(inner.contains(inner[i]));
                    if other != key {
                        let k = shorter.index_of(other);
                        assert(list[k] == other);
                    }
                } else {
                    assert(list[list.len() - 1] == other);
                }
            }
            if list.contains(other) {
                let k = list.index_of(other);
                if k < shorter.len() {
                    assert(shorter[k] == other);
                    assert(inner.contains(other));
                    let i = inner.index_of(other);
                    assert(result[i] == other);
                } else {
                    assert(result[inner.len() as int] == other);
                }
            }
            if other == key {
                assert(inner.contains(key));
                let i = inner.index_of(key);
                assert(result[i] == other);
            }
        }
    }
}

proof fn can_be_listed(set: Set<Seq<Seq<char>>>) -> (list: Seq<Seq<Seq<char>>>)
    requires
        set.finite(),
    ensures
        ascending(list),
        list.to_set() == set,
    decreases set.len(),
{
    if set.len() == 0 {
        let none = Seq::<Seq<Seq<char>>>::empty();
        assert(none.to_set() =~= set);
        none
    } else {
        let key = set.choose();
        let rest = can_be_listed(set.remove(key));
        assert(!rest.contains(key)) by {
            assert(rest.to_set().contains(key) == rest.contains(key));
        }
        with_key_lists(rest, key);
        let list = with_key(rest, key);
        assert forall|other: Seq<Seq<char>>| #[trigger] list.to_set().contains(other) <==> set.contains(other) by {
            assert(list.contains(other) <==> other == key || rest.contains(other));
            assert(rest.to_set().contains(other) == rest.contains(other));
        }
        assert(list.to_set() =~= set);
        list
    }
}

/// A finite set can be listed in ascending order.
pub proof fn finite_sets_are_listed(set: Set<Seq<Seq<char>>>)
    requires
        set.finite(),
    ensures
        ascending(listed(set)),
        listed(set).to_set() == set,
{
    let list = can_be_listed(set);
    assert(ascending(list) && list.to_set() == set);
}

impl<K: Key, V> SortedMap<K, V> {
    /// The keys stand in the order in which they are listed.
    pub proof fn lists_its_keys(&self)
        requires
            self.wf(),
        ensures
            listed(self@.dom()) == self.listing(),
    {
        self.size();
        listed_is(self.listing());
    }
}

} // verus!
