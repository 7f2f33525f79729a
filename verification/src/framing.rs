//! What goes into a digest can be told from the bytes: none of it is lost, and none of it runs
//! into what stands beside it.

use crate::digest::{framed, framing_is_prefix_free, little_endian, little_endian_injective, little_endian_width};
use crate::normal::framed_texts;
use crate::seqs::{concat_map, concat_map_first, last_wins};
use crate::sorted::{finite_sets_are_listed, listed};
use vstd::prelude::*;
use vstd::utf8::encode_utf8;

verus! {

/// A piece of what goes into a digest: some texts, and some more bytes.
pub ghost struct Item {
    pub texts: Seq<Seq<char>>,
    pub raw: Seq<u8>,
}

/// The bytes of a piece.
pub open spec fn item_bytes(item: Item) -> Seq<u8> {
    framed_texts(item.texts) + item.raw
}

/// The bytes of some pieces.
pub open spec fn items_bytes(list: Seq<Item>) -> Seq<u8> {
    concat_map(list, |item: Item| item_bytes(item))
}

/// Whether two pieces that begin alike are of one form: they have as many texts and as many more
/// bytes.
pub open spec fn compatible(x: Item, y: Item) -> bool {
    &&& x.texts.len() > 0
    &&& y.texts.len() > 0
    &&& x.texts[0] == y.texts[0] && (x.texts.len() == 1 || y.texts.len() == 1 || x.texts[1] == y.texts[1]) ==> x.texts.len()
        == y.texts.len() && x.raw.len() == y.raw.len()
}

/// One more text at the end.
pub proof fn framed_push(list: Seq<Seq<char>>, text: Seq<char>)
    ensures
        framed_texts(list.push(text)) == framed_texts(list) + framed(text),
{
    assert(list.push(text).drop_last() =~= list);
}

proof fn framed_first(list: Seq<Seq<char>>)
    requires
        list.len() > 0,
    ensures
        framed_texts(list) == framed(list[0]) + framed_texts(list.skip(1)),
{
    concat_map_first(list, |text: Seq<char>| framed(text));
}

proof fn first_text(a: Seq<Seq<char>>, b: Seq<Seq<char>>, x: Seq<u8>, y: Seq<u8>)
    requires
        a.len() > 0,
        b.len() > 0,
        framed_texts(a) + x == framed_texts(b) + y,
        (framed_texts(a) + x).len() <= u64::MAX,
    ensures
        a[0] == b[0],
        framed_texts(a.skip(1)) + x == framed_texts(b.skip(1)) + y,
        (framed_texts(a.skip(1)) + x).len() <= u64::MAX,
{
    framed_first(a);
    framed_first(b);
    let p = framed_texts(a.skip(1)) + x;
    let q = framed_texts(b.skip(1)) + y;
    assert(framed_texts(a) + x =~= framed(a[0]) + p);
    assert(framed_texts(b) + y =~= framed(b[0]) + q);
    assert(framed(a[0]).len() >= encode_utf8(a[0]).len());
    assert(framed(b[0]).len() >= encode_utf8(b[0]).len());
    framing_is_prefix_free(a[0], b[0], p, q);
}

proof fn all_texts(a: Seq<Seq<char>>, b: Seq<Seq<char>>, x: Seq<u8>, y: Seq<u8>)
    requires
        a.len() == b.len(),
        framed_texts(a) + x == framed_texts(b) + y,
        (framed_texts(a) + x).len() <= u64::MAX,
    ensures
        a == b,
        x == y,
    decreases a.len(),
{
    if a.len() == 0 {
        assert(a =~= b);
        assert(framed_texts(a) + x =~= x);
        assert(framed_texts(b) + y =~= y);
    } else {
        first_text(a, b, x, y);
        all_texts(a.skip(1), b.skip(1), x, y);
        assert(a =~= seq![a[0]] + a.skip(1));
        assert(b =~= seq![b[0]] + b.skip(1));
    }
}

proof fn first_item(x: Item, y: Item, p: Seq<u8>, q: Seq<u8>)
    requires
        compatible(x, y),
        item_bytes(x) + p == item_bytes(y) + q,
        (item_bytes(x) + p).len() <= u64::MAX,
    ensures
        x == y,
        p == q,
{
    let v = x.raw + p;
    let w = y.raw + q;
    assert(item_bytes(x) + p =~= framed_texts(x.texts) + v);
    assert(item_bytes(y) + q =~= framed_texts(y.texts) + w);
    first_text(x.texts, y.texts, v, w);
    if x.texts.len() > 1 && y.texts.len() > 1 {
        first_text(x.texts.skip(1), y.texts.skip(1), v, w);
        assert(x.texts.skip(1)[0] == x.texts[1]);
        assert(y.texts.skip(1)[0] == y.texts[1]);
    }
    all_texts(x.texts, y.texts, v, w);
    assert(v.take(x.raw.len() as int) =~= x.raw);
    assert(w.take(y.raw.len() as int) =~= y.raw);
    assert(v.skip(x.raw.len() as int) =~= p);
    assert(w.skip(y.raw.len() as int) =~= q);
}

/// Whether two pieces can be told from the bytes, whatever follows them, as long as there are not
/// too many.
#[verifier::opaque]
pub open spec fn told(x: Item, y: Item, limit: int) -> bool {
    forall|p: Seq<u8>, q: Seq<u8>| #[trigger]
        (item_bytes(x) + p) == #[trigger] (item_bytes(y) + q) && (item_bytes(x) + p).len() <= limit ==> x == y && p == q
}

/// Pieces of one form can be told from the bytes.
pub proof fn compatible_are_told(x: Item, y: Item)
    requires
        compatible(x, y),
    ensures
        told(x, y, u64::MAX as int),
{
    reveal(told);
    assert forall|p: Seq<u8>, q: Seq<u8>| #[trigger] (item_bytes(x) + p) == #[trigger] (item_bytes(y) + q) && (item_bytes(x) + p).len()
        <= u64::MAX implies x == y && p == q by {
        first_item(x, y, p, q);
    }
}

/// What can be told with more bytes can be told with fewer.
pub proof fn told_with_fewer(x: Item, y: Item, limit: int, fewer: int)
    requires
        told(x, y, limit),
        fewer <= limit,
    ensures
        told(x, y, fewer),
{
    reveal(told);
}

/// A piece with more bytes behind its texts can be told from one with one more text there, if
/// those bytes are no length that the text can have.
pub proof fn lengths_are_told(x: Item, y: Item, n: u64, limit: int)
    requires
        x.texts.len() + 1 == y.texts.len(),
        x.raw == little_endian(n as nat, 8),
        limit < n,
    ensures
        told(x, y, limit),
        told(y, x, limit),
{
    reveal(told);
    assert forall|p: Seq<u8>, q: Seq<u8>| (item_bytes(x) + p).len() <= limit implies item_bytes(x) + p != item_bytes(y) + q by {
        never_alike(x, y, n, p, q);
    }
    assert forall|p: Seq<u8>, q: Seq<u8>| #[trigger] (item_bytes(y) + p) == #[trigger] (item_bytes(x) + q) && (item_bytes(y) + p).len()
        <= limit implies y == x && p == q by {
        never_alike(x, y, n, q, p);
    }
}

proof fn never_alike(x: Item, y: Item, n: u64, p: Seq<u8>, q: Seq<u8>)
    requires
        x.texts.len() + 1 == y.texts.len(),
        x.raw == little_endian(n as nat, 8),
        (item_bytes(x) + p).len() < n,
    ensures
        item_bytes(x) + p != item_bytes(y) + q,
{
    let front = y.texts.drop_last();
    let last = y.texts.last();
    framed_push(front, last);
    assert(front.push(last) =~= y.texts);
    let v = x.raw + p;
    let w = framed(last) + (y.raw + q);
    assert(item_bytes(x) + p =~= framed_texts(x.texts) + v);
    assert(item_bytes(y) + q =~= framed_texts(front) + w);
    if item_bytes(x) + p == item_bytes(y) + q {
        all_texts(x.texts, front, v, w);
        let m = encode_utf8(last).len();
        little_endian_width(n as nat, 8);
        little_endian_width(m, 8);
        assert(v.take(8) =~= little_endian(n as nat, 8));
        assert(w.take(8) =~= little_endian(m, 8));
        assert(w.len() >= m);
        assert(vstd::arithmetic::power::pow(256, 8) == u64::MAX + 1) by {
            reveal(vstd::arithmetic::power::pow);
            reveal_with_fuel(vstd::arithmetic::power::pow, 9);
        }
        little_endian_injective(n as nat, m, 8);
    }
}

proof fn item_is_not_empty(item: Item)
    requires
        item.texts.len() > 0,
    ensures
        item_bytes(item).len() > 0,
{
    framed_first(item.texts);
    assert(little_endian(encode_utf8(item.texts[0]).len(), 8).len() > 0);
}

/// Pieces can be told from their bytes if any two of them can.
pub proof fn items_are_told_apart(a: Seq<Item>, b: Seq<Item>, limit: int)
    requires
        forall|i: int| 0 <= i < a.len() ==> (#[trigger] a[i]).texts.len() > 0,
        forall|j: int| 0 <= j < b.len() ==> (#[trigger] b[j]).texts.len() > 0,
        forall|i: int, j: int| 0 <= i < a.len() && 0 <= j < b.len() ==> told(#[trigger] a[i], #[trigger] b[j], limit),
        items_bytes(a) == items_bytes(b),
        items_bytes(a).len() <= limit,
    ensures
        a == b,
    decreases a.len() + b.len(),
{
    let piece = |item: Item| item_bytes(item);
    if a.len() > 0 {
        concat_map_first(a, piece);
        item_is_not_empty(a[0]);
    }
    if b.len() > 0 {
        concat_map_first(b, piece);
        item_is_not_empty(b[0]);
    }
    if a.len() > 0 && b.len() > 0 {
        let x = a.skip(1);
        let y = b.skip(1);
        assert(told(a[0], b[0], limit));
        assert(a[0] == b[0] && items_bytes(x) == items_bytes(y)) by {
            reveal(told);
            assert(item_bytes(a[0]) + items_bytes(x) == item_bytes(b[0]) + items_bytes(y));
        }
        assert forall|i: int| 0 <= i < x.len() implies (#[trigger] x[i]).texts.len() > 0 by {
            assert(x[i] == a[i + 1]);
        }
        assert forall|j: int| 0 <= j < y.len() implies (#[trigger] y[j]).texts.len() > 0 by {
            assert(y[j] == b[j + 1]);
        }
        assert forall|i: int, j: int| 0 <= i < x.len() && 0 <= j < y.len() implies told(#[trigger] x[i], #[trigger] y[j], limit) by {
            assert(told(a[i + 1], b[j + 1], limit));
        }
        items_are_told_apart(x, y, limit);
        assert(a =~= seq![a[0]] + x);
        assert(b =~= seq![b[0]] + y);
    } else {
        assert(a.len() == 0 && b.len() == 0);
        assert(a =~= b);
    }
}

/// What is put together piece by piece has the bytes of the pieces.
pub proof fn pieces_are_items<A>(list: Seq<A>, piece: spec_fn(A) -> Seq<u8>, items: Seq<Item>)
    requires
        list.len() == items.len(),
        forall|i: int| 0 <= i < list.len() ==> piece(#[trigger] list[i]) == item_bytes(items[i]),
    ensures
        concat_map(list, piece) == items_bytes(items),
    decreases list.len(),
{
    if list.len() > 0 {
        let less = list.drop_last();
        let rest = items.drop_last();
        assert forall|i: int| 0 <= i < less.len() implies piece(#[trigger] less[i]) == item_bytes(rest[i]) by {
            assert(less[i] == list[i]);
            assert(rest[i] == items[i]);
        }
        pieces_are_items(less, piece, rest);
        assert(list[list.len() - 1] == list.last());
    }
}

/// The bytes of pieces behind others stand behind theirs.
pub proof fn items_behind(a: Seq<Item>, b: Seq<Item>)
    ensures
        items_bytes(a + b) == items_bytes(a) + items_bytes(b),
    decreases b.len(),
{
    if b.len() == 0 {
        assert(a + b =~= a);
        assert(items_bytes(a) + items_bytes(b) =~= items_bytes(a));
    } else {
        items_behind(a, b.drop_last());
        assert((a + b).drop_last() =~= a + b.drop_last());
        assert(items_bytes(a + b) =~= items_bytes(a) + items_bytes(b));
    }
}

/// Where pieces of one sort stand before pieces of another, it can be told which ones are which.
pub proof fn sorts_are_told_apart(a: Seq<Item>, x: Seq<Item>, b: Seq<Item>, y: Seq<Item>, first: spec_fn(Item) -> bool)
    requires
        a + x == b + y,
        forall|i: int| 0 <= i < a.len() ==> first(#[trigger] a[i]),
        forall|i: int| 0 <= i < b.len() ==> first(#[trigger] b[i]),
        forall|i: int| 0 <= i < x.len() ==> !first(#[trigger] x[i]),
        forall|i: int| 0 <= i < y.len() ==> !first(#[trigger] y[i]),
    ensures
        a == b,
        x == y,
{
    let all = a + x;
    let same = b + y;
    if a.len() < b.len() {
        assert(same[a.len() as int] == b[a.len() as int]);
        assert(all[a.len() as int] == x[0]);
    }
    if b.len() < a.len() {
        assert(all[b.len() as int] == a[b.len() as int]);
        assert(same[b.len() as int] == y[0]);
    }
    assert(a =~= all.take(a.len() as int));
    assert(b =~= same.take(b.len() as int));
    assert(x =~= all.skip(a.len() as int));
    assert(y =~= same.skip(b.len() as int));
}

/// What counts was given.
pub proof fn last_was_given<K, V>(entries: Seq<(K, V)>, key: K)
    requires
        last_wins(entries).contains_key(key),
    ensures
        exists|i: int| 0 <= i < entries.len() && (#[trigger] entries[i]).0 == key && entries[i].1 == last_wins(entries)[key],
    decreases entries.len(),
{
    let n = entries.len() - 1;
    if entries.last().0 == key {
        assert(entries[n].0 == key);
    } else {
        let less = entries.drop_last();
        last_was_given(less, key);
        let i = choose|i: int| 0 <= i < less.len() && (#[trigger] less[i]).0 == key && less[i].1 == last_wins(less)[key];
        assert(entries[i] == less[i]);
    }
}

/// Finitely many keys count.
pub proof fn last_wins_is_finite<K, V>(entries: Seq<(K, V)>)
    ensures
        last_wins(entries).dom().finite(),
    decreases entries.len(),
{
    if entries.len() > 0 {
        last_wins_is_finite(entries.drop_last());
    }
}

/// Every key has a place where it is listed.
pub proof fn listed_keys<V>(map: Map<Seq<Seq<char>>, V>)
    requires
        map.dom().finite(),
    ensures
        forall|i: int| 0 <= i < listed(map.dom()).len() ==> map.contains_key(#[trigger] listed(map.dom())[i]),
        forall|key: Seq<Seq<char>>| #[trigger] map.contains_key(key) ==> listed(map.dom()).contains(key),
{
    finite_sets_are_listed(map.dom());
    let list = listed(map.dom());
    assert forall|i: int| 0 <= i < list.len() implies map.contains_key(#[trigger] list[i]) by {
        assert(list.to_set().contains(list[i]));
    }
    assert forall|key: Seq<Seq<char>>| #[trigger] map.contains_key(key) implies list.contains(key) by {
        assert(list.to_set().contains(key));
    }
}

/// Maps are the same if they list the same keys with the same values.
pub proof fn listed_maps<V>(a: Map<Seq<Seq<char>>, V>, b: Map<Seq<Seq<char>>, V>)
    requires
        a.dom().finite(),
        b.dom().finite(),
        listed(a.dom()).len() == listed(b.dom()).len(),
        forall|i: int|
            0 <= i < listed(a.dom()).len() ==> #[trigger] listed(a.dom())[i] == listed(b.dom())[i] && a[listed(a.dom())[i]] == b[listed(
                b.dom(),
            )[i]],
    ensures
        a == b,
{
    listed_keys(a);
    listed_keys(b);
    let list = listed(a.dom());
    assert(list =~= listed(b.dom()));
    assert forall|key: Seq<Seq<char>>| a.contains_key(key) <==> b.contains_key(key) by {
        if a.contains_key(key) {
            let i = choose|i: int| 0 <= i < list.len() && list[i] == key;
            assert(b.contains_key(listed(b.dom())[i]));
        }
        if b.contains_key(key) {
            let i = choose|i: int| 0 <= i < list.len() && list[i] == key;
            assert(a.contains_key(list[i]));
        }
    }
    assert forall|key: Seq<Seq<char>>| a.contains_key(key) implies a[key] == b[key] by {
        let i = choose|i: int| 0 <= i < list.len() && list[i] == key;
        assert(list[i] == listed(b.dom())[i]);
    }
    assert(a =~= b);
}

} // verus!
