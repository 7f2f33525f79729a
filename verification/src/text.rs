//! Text helpers: exact contracts over the characters of a string.

use vstd::prelude::*;

verus! {

/// The outcome of comparing two values of a total order.
#[derive(Clone, Copy, PartialEq, Eq, Structural, Debug)]
pub enum Order {
    Less,
    Same,
    Greater,
}

/// Lexicographic order by code point, which is also the byte order of the UTF-8 encodings.
pub open spec fn chars_lt(a: Seq<char>, b: Seq<char>) -> bool
    decreases a.len(),
{
    if b.len() == 0 {
        false
    } else if a.len() == 0 {
        true
    } else {
        a[0] < b[0] || (a[0] == b[0] && chars_lt(a.drop_first(), b.drop_first()))
    }
}

/// No text sorts before itself.
pub proof fn chars_lt_irreflexive(a: Seq<char>)
    ensures
        !chars_lt(a, a),
    decreases a.len(),
{
    if a.len() > 0 {
        chars_lt_irreflexive(a.drop_first());
    }
}

/// The text order is transitive.
pub proof fn chars_lt_transitive(a: Seq<char>, b: Seq<char>, c: Seq<char>)
    requires
        chars_lt(a, b),
        chars_lt(b, c),
    ensures
        chars_lt(a, c),
    decreases a.len(),
{
    if a.len() > 0 && a[0] == b[0] && b[0] == c[0] {
        chars_lt_transitive(a.drop_first(), b.drop_first(), c.drop_first());
    }
}

/// Of two texts one sorts before the other, or they are equal.
pub proof fn chars_lt_total(a: Seq<char>, b: Seq<char>)
    ensures
        chars_lt(a, b) || a == b || chars_lt(b, a),
    decreases a.len(),
{
    if a.len() == 0 || b.len() == 0 {
        if a.len() == b.len() {
            assert(a =~= b);
        }
    } else if a[0] == b[0] {
        chars_lt_total(a.drop_first(), b.drop_first());
        if a.drop_first() == b.drop_first() {
            assert(a =~= seq![a[0]] + a.drop_first());
            assert(b =~= seq![b[0]] + b.drop_first());
        }
    }
}

/// Texts of one length that differ decide the order of whatever begins with them.
pub proof fn chars_lt_extends(p: Seq<char>, q: Seq<char>, x: Seq<char>, y: Seq<char>)
    requires
        p.len() == q.len(),
        chars_lt(p, q),
    ensures
        chars_lt(p + x, q + y),
    decreases p.len(),
{
    if p[0] == q[0] {
        chars_lt_extends(p.drop_first(), q.drop_first(), x, y);
        assert((p + x).drop_first() =~= p.drop_first() + x);
        assert((q + y).drop_first() =~= q.drop_first() + y);
    }
}

/// A common beginning leaves the order to what follows it.
pub proof fn chars_lt_behind(p: Seq<char>, x: Seq<char>, y: Seq<char>)
    requires
        chars_lt(x, y),
    ensures
        chars_lt(p + x, p + y),
    decreases p.len(),
{
    if p.len() == 0 {
        assert(p + x =~= x);
        assert(p + y =~= y);
    } else {
        chars_lt_behind(p.drop_first(), x, y);
        assert((p + x).drop_first() =~= p.drop_first() + x);
        assert((p + y).drop_first() =~= p.drop_first() + y);
    }
}

/// What comparing two texts yields.
pub open spec fn chars_order(a: Seq<char>, b: Seq<char>) -> Order {
    if a == b {
        Order::Same
    } else if chars_lt(a, b) {
        Order::Less
    } else {
        Order::Greater
    }
}

/// The characters of a text.
pub fn characters(text: &str) -> (r: Vec<char>)
    ensures
        r@ == text@,
{
    let mut out: Vec<char> = Vec::new();
    for c in it: text.chars()
        invariant
            out@ == it.seq().take(it.index() as int),
            it.seq() == text@,
    {
        out.push(c);
    }
    out
}

/// Whether two texts are equal.
pub fn same(a: &str, b: &str) -> (r: bool)
    ensures
        r == (a@ == b@),
{
    a.to_owned() == b.to_owned()
}

/// Compares two texts in the text order.
pub fn compare_text(a: &str, b: &str) -> (r: Order)
    ensures
        r == chars_order(a@, b@),
{
    let left: Vec<char> = characters(a);
    let right: Vec<char> = characters(b);
    let mut i: usize = 0;
    proof {
        assert(left@.skip(0) =~= left@);
        assert(right@.skip(0) =~= right@);
    }
    while i < left.len() && i < right.len() && left[i] == right[i]
        invariant
            i <= left.len(),
            i <= right.len(),
            left@.take(i as int) =~= right@.take(i as int),
            chars_lt(left@, right@) == chars_lt(left@.skip(i as int), right@.skip(i as int)),
        decreases left.len() - i,
    {
        proof {
            assert(left@.skip(i as int).drop_first() =~= left@.skip(i as int + 1));
            assert(right@.skip(i as int).drop_first() =~= right@.skip(i as int + 1));
            assert(left@.take(i as int + 1) =~= left@.take(i as int).push(left@[i as int]));
            assert(right@.take(i as int + 1) =~= right@.take(i as int).push(right@[i as int]));
        }
        i = i + 1;
    }
    let ended_left: bool = i == left.len();
    let ended_right: bool = i == right.len();
    if ended_left && ended_right {
        proof {
            assert(left@ =~= left@.take(i as int));
            assert(right@ =~= right@.take(i as int));
        }
        return Order::Same;
    }
    if ended_left {
        return Order::Less;
    }
    if ended_right {
        return Order::Greater;
    }
    proof {
        assert(left@[i as int] != right@[i as int]);
    }
    if left[i] < right[i] {
        Order::Less
    } else {
        Order::Greater
    }
}

/// Whether `text` begins with `prefix`.
pub fn starts_with(text: &str, prefix: &str) -> (r: bool)
    ensures
        r == prefix@.is_prefix_of(text@),
{
    let n: usize = prefix.unicode_len();
    if n > text.unicode_len() {
        return false;
    }
    same(text.substring_char(0, n), prefix)
}

/// Whether `text` ends with `suffix`.
pub fn ends_with(text: &str, suffix: &str) -> (r: bool)
    ensures
        r == suffix@.is_suffix_of(text@),
{
    let n: usize = suffix.unicode_len();
    let m: usize = text.unicode_len();
    if n > m {
        return false;
    }
    same(text.substring_char(m - n, m), suffix)
}

/// What follows `prefix` in `text`, where `text` begins with it.
pub fn strip_prefix<'a>(text: &'a str, prefix: &str) -> (r: Option<&'a str>)
    ensures
        r is Some <==> prefix@.is_prefix_of(text@),
        r is Some ==> text@ == prefix@ + r->0@,
{
    if starts_with(text, prefix) {
        let rest: &'a str = text.substring_char(prefix.unicode_len(), text.unicode_len());
        assert(text@ =~= prefix@ + rest@);
        Some(rest)
    } else {
        None
    }
}

/// What precedes `suffix` in `text`, where `text` ends with it.
pub fn strip_suffix<'a>(text: &'a str, suffix: &str) -> (r: Option<&'a str>)
    ensures
        r is Some <==> suffix@.is_suffix_of(text@),
        r is Some ==> text@ == r->0@ + suffix@,
{
    if ends_with(text, suffix) {
        let rest: &'a str = text.substring_char(0, text.unicode_len() - suffix.unicode_len());
        assert(text@ =~= rest@ + suffix@);
        Some(rest)
    } else {
        None
    }
}

/// One decimal digit.
pub open spec fn digit(d: nat) -> Seq<char> {
    "0123456789"@.subrange(d as int, d as int + 1)
}

/// The decimal notation of a number.
pub open spec fn decimal(n: nat) -> Seq<char>
    decreases n,
{
    if n < 10 {
        digit(n)
    } else {
        decimal(n / 10) + digit(n % 10)
    }
}

/// A decimal notation consists of digits, one at least.
pub proof fn decimal_has_digits(n: nat)
    ensures
        decimal(n).len() > 0,
        forall|i: int| 0 <= i < decimal(n).len() ==> '0' <= #[trigger] decimal(n)[i] <= '9',
    decreases n,
{
    reveal_strlit("0123456789");
    if n >= 10 {
        decimal_has_digits(n / 10);
    }
}

/// A decimal notation tells the number.
pub proof fn decimal_tells_the_number(a: nat, b: nat)
    requires
        decimal(a) == decimal(b),
    ensures
        a == b,
    decreases a,
{
    reveal_strlit("0123456789");
    if a >= 10 {
        decimal_has_digits(a / 10);
    }
    if b >= 10 {
        decimal_has_digits(b / 10);
    }
    assert(decimal(a).last() == digit(a % 10)[0]);
    assert(decimal(b).last() == digit(b % 10)[0]);
    assert(a % 10 == b % 10);
    if a >= 10 {
        assert(decimal(a).drop_last() =~= decimal(a / 10));
        assert(decimal(b).drop_last() =~= decimal(b / 10));
        decimal_tells_the_number(a / 10, b / 10);
    }
}

/// The decimal notation of a number.
pub fn decimal_text(n: u64) -> (r: String)
    ensures
        r@ == decimal(n as nat),
    decreases n,
{
    proof {
        reveal_strlit("0123456789");
    }
    let last: usize = (n % 10) as usize;
    let tail: &str = "0123456789".substring_char(last, last + 1);
    if n < 10 {
        tail.to_owned()
    } else {
        let mut out: String = decimal_text(n / 10);
        out.append(tail);
        out
    }
}

/// The text without the leading run of a character.
pub open spec fn trim_start(text: Seq<char>, c: char) -> Seq<char>
    decreases text.len(),
{
    if text.len() > 0 && text[0] == c {
        trim_start(text.drop_first(), c)
    } else {
        text
    }
}

/// The text without the trailing run of a character.
pub open spec fn trim_end(text: Seq<char>, c: char) -> Seq<char>
    decreases text.len(),
{
    if text.len() > 0 && text.last() == c {
        trim_end(text.drop_last(), c)
    } else {
        text
    }
}

/// The text without the leading and trailing runs of a character.
pub open spec fn trim_matches(text: Seq<char>, c: char) -> Seq<char> {
    trim_end(trim_start(text, c), c)
}

/// The text without the leading and trailing runs of a character.
pub fn trimmed(text: &str, c: char) -> (r: String)
    ensures
        r@ == trim_matches(text@, c),
{
    let all: Vec<char> = characters(text);
    let mut from: usize = 0;
    assert(all@.skip(0) =~= all@);
    while from < all.len() && all[from] == c
        invariant
            from <= all.len(),
            trim_start(all@, c) == trim_start(all@.skip(from as int), c),
        decreases all.len() - from,
    {
        assert(all@.skip(from as int).drop_first() =~= all@.skip(from as int + 1));
        from = from + 1;
    }
    let mut to: usize = all.len();
    assert(all@.subrange(from as int, to as int) =~= all@.skip(from as int));
    while to > from && all[to - 1] == c
        invariant
            from <= to <= all.len(),
            trim_matches(all@, c) == trim_end(all@.subrange(from as int, to as int), c),
        decreases to,
    {
        assert(all@.subrange(from as int, to as int).drop_last() =~= all@.subrange(from as int, to as int - 1));
        to = to - 1;
    }
    text.substring_char(from, to).to_owned()
}

/// Whether the pattern stands in the text at a position.
pub open spec fn occurs_at(text: Seq<char>, pattern: Seq<char>, at: int) -> bool {
    &&& 0 <= at
    &&& at + pattern.len() <= text.len()
    &&& text.subrange(at, at + pattern.len()) == pattern
}

/// Whether the text contains the pattern.
pub open spec fn contains_text(text: Seq<char>, pattern: Seq<char>) -> bool {
    exists|at: int| occurs_at(text, pattern, at)
}

/// The last position up to `at` where the pattern stands.
pub open spec fn last_occurrence(text: Seq<char>, pattern: Seq<char>, at: int) -> Option<int>
    decreases at + 1,
{
    if at < 0 {
        None
    } else if occurs_at(text, pattern, at) {
        Some(at)
    } else {
        last_occurrence(text, pattern, at - 1)
    }
}

/// The text before and after the last place where the separator stands.
pub open spec fn split_last(text: Seq<char>, separator: Seq<char>) -> Option<(Seq<char>, Seq<char>)> {
    match last_occurrence(text, separator, text.len() - separator.len()) {
        Some(at) => Some((text.take(at), text.skip(at + separator.len()))),
        None => None,
    }
}

/// The first position from `at` on where the pattern stands.
pub open spec fn first_occurrence(text: Seq<char>, pattern: Seq<char>, at: int) -> Option<int>
    decreases text.len() + 1 - at,
{
    if at > text.len() - pattern.len() {
        None
    } else if occurs_at(text, pattern, at) {
        Some(at)
    } else {
        first_occurrence(text, pattern, at + 1)
    }
}

/// The text before and after the first place where the separator stands.
pub open spec fn split_first(text: Seq<char>, separator: Seq<char>) -> Option<(Seq<char>, Seq<char>)> {
    match first_occurrence(text, separator, 0) {
        Some(at) => Some((text.take(at), text.skip(at + separator.len()))),
        None => None,
    }
}

/// Whether the pattern stands in the text at a position.
pub fn matches_at(text: &Vec<char>, pattern: &Vec<char>, at: usize) -> (r: bool)
    requires
        at + pattern@.len() <= text@.len(),
    ensures
        r == occurs_at(text@, pattern@, at as int),
{
    let length: usize = text.len();
    let mut i: usize = 0;
    while i < pattern.len()
        invariant
            length == text@.len(),
            i <= pattern@.len(),
            at + pattern@.len() <= text@.len(),
            forall|k: int| 0 <= k < i ==> text@[at + k] == #[trigger] pattern@[k],
        decreases pattern@.len() - i,
    {
        if text[at + i] != pattern[i] {
            assert(text@.subrange(at as int, at + pattern@.len())[i as int] != pattern@[i as int]);
            return false;
        }
        i = i + 1;
    }
    assert(text@.subrange(at as int, at + pattern@.len()) =~= pattern@);
    true
}

/// Whether the characters begin with the pattern.
pub fn begins(text: &Vec<char>, pattern: &str) -> (r: bool)
    ensures
        r == pattern@.is_prefix_of(text@),
{
    let wanted: Vec<char> = characters(pattern);
    if wanted.len() > text.len() {
        return false;
    }
    matches_at(text, &wanted, 0)
}

/// Whether the characters end with the pattern.
pub fn ends(text: &Vec<char>, pattern: &str) -> (r: bool)
    ensures
        r == pattern@.is_suffix_of(text@),
{
    let wanted: Vec<char> = characters(pattern);
    if wanted.len() > text.len() {
        return false;
    }
    matches_at(text, &wanted, text.len() - wanted.len())
}

/// Whether the characters spell the given text.
pub fn spells(text: &Vec<char>, other: &str) -> (r: bool)
    ensures
        r == (text@ == other@),
{
    let wanted: Vec<char> = characters(other);
    if wanted.len() != text.len() {
        return false;
    }
    let r: bool = matches_at(text, &wanted, 0);
    assert(text@.subrange(0, text@.len() as int) =~= text@);
    r
}

/// Whether the characters contain the pattern.
pub fn holds(text: &Vec<char>, pattern: &str) -> (r: bool)
    ensures
        r == contains_text(text@, pattern@),
{
    let wanted: Vec<char> = characters(pattern);
    if wanted.len() > text.len() {
        return false;
    }
    let mut at: usize = 0;
    while at <= text.len() - wanted.len()
        invariant
            wanted@ == pattern@,
            wanted@.len() <= text@.len(),
            at <= text@.len() - wanted@.len() + 1,
            forall|k: int| 0 <= k < at ==> !occurs_at(text@, pattern@, k),
        decreases text@.len() - at,
    {
        if matches_at(text, &wanted, at) {
            return true;
        }
        if at == text.len() - wanted.len() {
            assert forall|k: int| !occurs_at(text@, pattern@, k) by {
                if occurs_at(text@, pattern@, k) {
                    assert(0 <= k <= at);
                }
            }
            return false;
        }
        at = at + 1;
    }
    false
}

/// Whether the text contains the pattern.
pub fn contains(text: &str, pattern: &str) -> (r: bool)
    ensures
        r == contains_text(text@, pattern@),
{
    holds(&characters(text), pattern)
}

/// The text before and after the last place where the separator stands.
pub fn rsplit_once<'a>(text: &'a str, separator: &str) -> (r: Option<(&'a str, &'a str)>)
    ensures
        r is Some <==> split_last(text@, separator@) is Some,
        r is Some ==> (r->0).0@ == (split_last(text@, separator@)->0).0,
        r is Some ==> (r->0).1@ == (split_last(text@, separator@)->0).1,
{
    let all: Vec<char> = characters(text);
    let wanted: Vec<char> = characters(separator);
    if wanted.len() > all.len() {
        return None;
    }
    let length: usize = all.len();
    let mut at: usize = length - wanted.len();
    loop
        invariant
            all@ == text@,
            wanted@ == separator@,
            length == all@.len(),
            wanted@.len() <= length,
            at <= length - wanted@.len(),
            last_occurrence(text@, separator@, text@.len() - separator@.len()) == last_occurrence(
                text@,
                separator@,
                at as int,
            ),
        decreases at,
    {
        if matches_at(&all, &wanted, at) {
            let before: &'a str = text.substring_char(0, at);
            let after: &'a str = text.substring_char(at + wanted.len(), length);
            assert(before@ =~= text@.take(at as int));
            assert(after@ =~= text@.skip(at + separator@.len()));
            return Some((before, after));
        }
        if at == 0 {
            assert(last_occurrence(text@, separator@, -1) is None);
            return None;
        }
        at = at - 1;
    }
}

/// The text before and after the first place where the separator stands.
pub fn split_once<'a>(text: &'a str, separator: &str) -> (r: Option<(&'a str, &'a str)>)
    ensures
        r is Some <==> split_first(text@, separator@) is Some,
        r is Some ==> (r->0).0@ == (split_first(text@, separator@)->0).0,
        r is Some ==> (r->0).1@ == (split_first(text@, separator@)->0).1,
{
    let all: Vec<char> = characters(text);
    let wanted: Vec<char> = characters(separator);
    if wanted.len() > all.len() {
        return None;
    }
    let length: usize = all.len();
    let last: usize = length - wanted.len();
    let mut at: usize = 0;
    loop
        invariant
            all@ == text@,
            length == all@.len(),
            wanted@ == separator@,
            wanted@.len() <= all@.len(),
            last == all@.len() - wanted@.len(),
            at <= last,
            first_occurrence(text@, separator@, 0) == first_occurrence(text@, separator@, at as int),
        decreases last - at,
    {
        if matches_at(&all, &wanted, at) {
            let before: &'a str = text.substring_char(0, at);
            let after: &'a str = text.substring_char(at + wanted.len(), length);
            assert(before@ =~= text@.take(at as int));
            assert(after@ =~= text@.skip(at + separator@.len()));
            return Some((before, after));
        }
        if at == last {
            assert(first_occurrence(text@, separator@, at + 1) is None);
            return None;
        }
        at = at + 1;
    }
}

/// The pieces between the places where a character stands.
pub open spec fn split_at(text: Seq<char>, c: char) -> Seq<Seq<char>>
    decreases text.len(),
{
    if text.len() == 0 {
        seq![Seq::empty()]
    } else {
        let before = split_at(text.drop_last(), c);
        if text.last() == c {
            before.push(Seq::empty())
        } else {
            before.drop_last().push(before.last().push(text.last()))
        }
    }
}

/// A text has at least one piece.
pub proof fn split_at_nonempty(text: Seq<char>, c: char)
    ensures
        split_at(text, c).len() > 0,
    decreases text.len(),
{
    if text.len() > 0 {
        split_at_nonempty(text.drop_last(), c);
    }
}

/// The pieces between the places where a character stands.
pub fn split(text: &str, c: char) -> (r: Vec<String>)
    ensures
        r@.map_values(|s: String| s@) == split_at(text@, c),
{
    let all: Vec<char> = characters(text);
    let mut out: Vec<String> = Vec::new();
    let mut start: usize = 0;
    let mut i: usize = 0;
    let ghost model = |s: String| s@;
    assert(all@.take(0) =~= Seq::empty());
    assert(out@.map_values(model).push(all@.subrange(0, 0)) =~= split_at(all@.take(0), c));
    while i < all.len()
        invariant
            all@ == text@,
            start <= i <= all@.len(),
            model == (|s: String| s@),
            out@.map_values(model).push(all@.subrange(start as int, i as int)) =~= split_at(all@.take(i as int), c),
        decreases all@.len() - i,
    {
        let ghost pieces = split_at(all@.take(i as int), c);
        let ghost before = out@.map_values(model);
        proof {
            assert(all@.take(i as int + 1).drop_last() =~= all@.take(i as int));
            assert(pieces.last() == all@.subrange(start as int, i as int));
            assert(pieces.drop_last() =~= before);
        }
        if all[i] == c {
            out.push(text.substring_char(start, i).to_owned());
            start = i + 1;
            proof {
                assert(out@.last()@ == pieces.last());
                assert(out@.map_values(model) =~= pieces);
                assert(all@.subrange(start as int, i as int + 1) =~= Seq::empty());
            }
        } else {
            proof {
                assert(all@.subrange(start as int, i as int + 1) =~= all@.subrange(start as int, i as int).push(
                    all@[i as int],
                ));
            }
        }
        i = i + 1;
    }
    out.push(text.substring_char(start, all.len()).to_owned());
    proof {
        assert(all@.take(all@.len() as int) =~= all@);
        assert(out@.map_values(model) =~= split_at(text@, c));
    }
    out
}

/// The text with ASCII capitals made small.
pub open spec fn ascii_lower(text: Seq<char>) -> Seq<char> {
    text.map_values(|c: char| lower_char(c))
}

/// The small letter of an ASCII capital; any other character itself.
pub open spec fn lower_char(c: char) -> char {
    if 'A' <= c <= 'Z' {
        ((c as u32) + 32) as char
    } else {
        c
    }
}

/// The characters of the text with ASCII capitals made small.
pub fn lowercase(text: &str) -> (r: Vec<char>)
    ensures
        r@ == ascii_lower(text@),
{
    let all: Vec<char> = characters(text);
    let mut out: Vec<char> = Vec::new();
    let mut i: usize = 0;
    while i < all.len()
        invariant
            all@ == text@,
            i <= all@.len(),
            out@ =~= ascii_lower(text@).take(i as int),
        decreases all@.len() - i,
    {
        let c: char = all[i];
        if 'A' <= c && c <= 'Z' {
            let small: u8 = (c as u8) + 32;
            out.push(small as char);
        } else {
            out.push(c);
        }
        i = i + 1;
    }
    assert(ascii_lower(text@).take(all@.len() as int) =~= ascii_lower(text@));
    out
}

/// Whether the text is a decimal number, its digits all ASCII.
pub open spec fn all_digits(text: Seq<char>) -> bool {
    forall|i: int| 0 <= i < text.len() ==> '0' <= #[trigger] text[i] <= '9'
}

/// The number that decimal digits stand for.
pub open spec fn number_value(text: Seq<char>) -> nat
    decreases text.len(),
{
    if text.len() == 0 {
        0
    } else {
        (number_value(text.drop_last()) * 10 + (text.last() as int - '0' as int)) as nat
    }
}

/// Whether the text is a number that a `usize` holds: digits behind an optional plus sign.
pub open spec fn is_size(text: Seq<char>) -> bool {
    let digits = if text.len() > 0 && text[0] == '+' {
        text.drop_first()
    } else {
        text
    };
    digits.len() > 0 && all_digits(digits) && number_value(digits) <= usize::MAX
}

/// Longer numbers are not smaller.
proof fn number_value_grows(text: Seq<char>, n: int)
    requires
        0 <= n <= text.len(),
        all_digits(text),
    ensures
        number_value(text.take(n)) <= number_value(text),
    decreases text.len() - n,
{
    if n < text.len() {
        number_value_grows(text, n + 1);
        assert(text.take(n + 1).drop_last() =~= text.take(n));
    } else {
        assert(text.take(n) =~= text);
    }
}

/// Whether the text is a number that a `usize` holds: digits behind an optional plus sign.
pub fn parses_as_size(text: &str) -> (r: bool)
    ensures
        r == is_size(text@),
{
    let all: Vec<char> = characters(text);
    let from: usize = if all.len() > 0 && all[0] == '+' {
        1
    } else {
        0
    };
    let ghost digits = all@.skip(from as int);
    proof {
        if from == 1 {
            assert(digits =~= text@.drop_first());
        } else {
            assert(digits =~= text@);
        }
    }
    if from == all.len() {
        return false;
    }
    let mut value: usize = 0;
    let mut i: usize = from;
    assert(digits.take(0) =~= Seq::empty());
    while i < all.len()
        invariant
            all@ == text@,
            from <= i <= all@.len(),
            from <= 1,
            digits == all@.skip(from as int),
            forall|k: int| 0 <= k < i - from ==> '0' <= #[trigger] digits[k] <= '9',
            value == number_value(digits.take(i - from)),
            is_size(text@) == (digits.len() > 0 && all_digits(digits) && number_value(digits) <= usize::MAX),
        decreases all@.len() - i,
    {
        let c: char = all[i];
        assert(digits[i - from] == c);
        if !('0' <= c && c <= '9') {
            return false;
        }
        let d: usize = (c as u32 - 48) as usize;
        let ghost next = digits.take(i - from + 1);
        proof {
            assert(next.drop_last() =~= digits.take(i - from));
            assert(next.last() == c);
        }
        if value > (usize::MAX - d) / 10 {
            proof {
                if all_digits(digits) {
                    number_value_grows(digits, i - from + 1);
                    assert(value * 10 + d > usize::MAX);
                }
            }
            return false;
        }
        value = value * 10 + d;
        i = i + 1;
    }
    proof {
        assert(digits.take(digits.len() as int) =~= digits);
    }
    true
}

proof fn first_occurrence_fits(text: Seq<char>, pattern: Seq<char>, at: int)
    requires
        at >= 0,
    ensures
        first_occurrence(text, pattern, at) is Some ==> at <= first_occurrence(text, pattern, at)->0 && first_occurrence(
            text,
            pattern,
            at,
        )->0 + pattern.len() <= text.len(),
    decreases text.len() + 1 - at,
{
    if at <= text.len() - pattern.len() && !occurs_at(text, pattern, at) {
        first_occurrence_fits(text, pattern, at + 1);
    }
}

/// The text with a pattern replaced wherever it stands, from the start.
pub open spec fn replaced(text: Seq<char>, pattern: Seq<char>, with: Seq<char>) -> Seq<char>
    decreases text.len(),
    when pattern.len() > 0
    via replaced_ends
{
    match split_first(text, pattern) {
        Some((before, after)) => before + with + replaced(after, pattern, with),
        None => text,
    }
}

#[via_fn]
proof fn replaced_ends(text: Seq<char>, pattern: Seq<char>, with: Seq<char>) {
    first_occurrence_fits(text, pattern, 0);
}

/// Replaces a pattern wherever it stands in a text.
pub fn replace(text: &str, pattern: &str, with: &str) -> (r: String)
    requires
        pattern@.len() > 0,
    ensures
        r@ == replaced(text@, pattern@, with@),
    decreases text@.len(),
{
    match split_once(text, pattern) {
        Some((before, after)) => {
            proof {
                first_occurrence_fits(text@, pattern@, 0);
            }
            let mut out: String = before.to_owned();
            out.append(with);
            out.append(replace(after, pattern, with).as_str());
            out
        },
        None => text.to_owned(),
    }
}

} // verus!
