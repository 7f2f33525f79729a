//! Digests of what was analysed.

use vstd::prelude::*;
use vstd::utf8::{encode_utf8, encode_utf8_decode_utf8};

verus! {

/// The SHA-256 digest of some bytes.
pub uninterp spec fn sha256_of(bytes: Seq<u8>) -> Seq<u8>;

/// The SHA-256 digest of some bytes. This calls `sha2::Sha256::digest`; its result is a function
/// of the bytes alone, and which one is not stated, but that it has 32 bytes.
#[verifier::external_body]
fn sha256(bytes: &Vec<u8>) -> (r: Vec<u8>)
    ensures
        r@ == sha256_of(bytes@),
        r@.len() == 32,
{
    <sha2::Sha256 as sha2::Digest>::digest(bytes.as_slice()).to_vec()
}

/// A digit of the hexadecimal notation.
pub open spec fn hex_digit(d: int) -> char {
    "0123456789abcdef"@[d]
}

/// Bytes in hexadecimal notation.
pub open spec fn hex(bytes: Seq<u8>) -> Seq<char>
    decreases bytes.len(),
{
    if bytes.len() == 0 {
        Seq::empty()
    } else {
        hex(bytes.drop_last()).push(hex_digit(bytes.last() as int / 16)).push(hex_digit(bytes.last() as int % 16))
    }
}

/// Bytes in hexadecimal notation.
pub fn hex_text(bytes: &Vec<u8>) -> (r: String)
    ensures
        r@ == hex(bytes@),
{
    let digits: &'static str = "0123456789abcdef";
    let mut text: String = String::new();
    let mut i: usize = 0;
    proof {
        reveal_strlit("0123456789abcdef");
        assert(bytes@.take(0) =~= Seq::<u8>::empty());
    }
    while i < bytes.len()
        invariant
            i <= bytes@.len(),
            digits@ == "0123456789abcdef"@,
            digits@.len() == 16,
            text@ == hex(bytes@.take(i as int)),
        decreases bytes@.len() - i,
    {
        let high: usize = (bytes[i] / 16) as usize;
        let low: usize = (bytes[i] % 16) as usize;
        let ghost before = text@;
        text.append(digits.substring_char(high, high + 1));
        text.append(digits.substring_char(low, low + 1));
        proof {
            let next = bytes@.take(i as int + 1);
            assert(next.drop_last() =~= bytes@.take(i as int));
            assert(next.last() == bytes@[i as int]);
            assert(text@ =~= before.push(hex_digit(high as int)).push(hex_digit(low as int)));
        }
        i = i + 1;
    }
    assert(bytes@.take(bytes@.len() as int) =~= bytes@);
    text
}

/// The digest of some bytes in hexadecimal notation.
pub fn hex_digest(bytes: &Vec<u8>) -> (r: String)
    ensures
        r@ == hex(sha256_of(bytes@)),
{
    hex_text(&sha256(bytes))
}

/// A number in some bytes, the lowest first.
pub open spec fn little_endian(n: nat, width: nat) -> Seq<u8>
    decreases width,
{
    if width == 0 {
        Seq::empty()
    } else {
        seq![(n % 256) as u8] + little_endian(n / 256, (width - 1) as nat)
    }
}

/// Appends a number in eight bytes, the lowest first.
pub fn hash_number(bytes: &mut Vec<u8>, value: u64)
    ensures
        final(bytes)@ == old(bytes)@ + little_endian(value as nat, 8),
{
    append_number(bytes, value, 8)
}

/// Appends a line in four bytes, the lowest first.
pub fn hash_line(bytes: &mut Vec<u8>, value: u32)
    ensures
        final(bytes)@ == old(bytes)@ + little_endian(value as nat, 4),
{
    append_number(bytes, value as u64, 4)
}

fn append_number(bytes: &mut Vec<u8>, value: u64, width: u8)
    ensures
        final(bytes)@ == old(bytes)@ + little_endian(value as nat, width as nat),
    decreases width,
{
    if width == 0 {
        assert(bytes@ =~= old(bytes)@ + little_endian(value as nat, 0));
        return;
    }
    bytes.push((value % 256) as u8);
    append_number(bytes, value / 256, width - 1);
    assert(bytes@ =~= old(bytes)@ + little_endian(value as nat, width as nat));
}

/// A text as it goes into a digest: the length of its encoding in eight bytes, and the encoding.
pub open spec fn framed(text: Seq<char>) -> Seq<u8> {
    little_endian(encode_utf8(text).len(), 8) + encode_utf8(text)
}

/// Appends a text with its length.
pub fn hash_string(bytes: &mut Vec<u8>, value: &str)
    ensures
        final(bytes)@ == old(bytes)@ + framed(value@),
{
    let ghost before = bytes@;
    let encoded: &[u8] = value.as_bytes();
    let n: usize = encoded.len();
    hash_number(bytes, n as u64);
    let ghost front = bytes@;
    let ghost tail = encode_utf8(value@);
    let mut i: usize = 0;
    assert(front + tail.take(0) =~= front);
    while i < n
        invariant
            i <= n,
            n == encoded@.len(),
            encoded@ == tail,
            bytes@ == front + tail.take(i as int),
        decreases n - i,
    {
        bytes.push(encoded[i]);
        assert(bytes@ =~= front + tail.take(i as int + 1));
        i = i + 1;
    }
    proof {
        assert(tail.take(n as int) =~= tail);
        assert(bytes@ =~= before + framed(value@));
    }
}

/// Numbers that fit can be told from their bytes.
pub proof fn little_endian_injective(a: nat, b: nat, width: nat)
    requires
        little_endian(a, width) == little_endian(b, width),
        a < vstd::arithmetic::power::pow(256, width),
        b < vstd::arithmetic::power::pow(256, width),
    ensures
        a == b,
    decreases width,
{
    vstd::arithmetic::power::lemma_pow0(256);
    if width > 0 {
        let x = little_endian(a, width);
        let y = little_endian(b, width);
        assert(x[0] == (a % 256) as u8 && y[0] == (b % 256) as u8);
        assert(x.drop_first() =~= little_endian(a / 256, (width - 1) as nat));
        assert(y.drop_first() =~= little_endian(b / 256, (width - 1) as nat));
        reveal(vstd::arithmetic::power::pow);
        let p = vstd::arithmetic::power::pow(256, (width - 1) as nat);
        assert(vstd::arithmetic::power::pow(256, width) == 256 * p);
        assert(a / 256 < p && b / 256 < p);
        little_endian_injective(a / 256, b / 256, (width - 1) as nat);
    }
}

/// A number takes up so many bytes.
pub proof fn little_endian_width(n: nat, width: nat)
    ensures
        little_endian(n, width).len() == width,
    decreases width,
{
    if width > 0 {
        little_endian_width(n / 256, (width - 1) as nat);
    }
}

/// A text that goes into a digest can be told from what follows it, whatever that is.
pub proof fn framing_is_prefix_free(a: Seq<char>, b: Seq<char>, x: Seq<u8>, y: Seq<u8>)
    requires
        framed(a) + x == framed(b) + y,
        encode_utf8(a).len() <= u64::MAX,
        encode_utf8(b).len() <= u64::MAX,
    ensures
        a == b,
        x == y,
{
    let m = encode_utf8(a).len();
    let n = encode_utf8(b).len();
    little_endian_width(m, 8);
    little_endian_width(n, 8);
    let p = framed(a) + x;
    let q = framed(b) + y;
    assert(p.take(8) =~= little_endian(m, 8));
    assert(q.take(8) =~= little_endian(n, 8));
    assert(vstd::arithmetic::power::pow(256, 8) == u64::MAX + 1) by {
        reveal(vstd::arithmetic::power::pow);
        reveal_with_fuel(vstd::arithmetic::power::pow, 9);
    }
    little_endian_injective(m, n, 8);
    assert(p.subrange(8, 8 + m as int) =~= encode_utf8(a));
    assert(q.subrange(8, 8 + n as int) =~= encode_utf8(b));
    assert(p.skip(8 + m as int) =~= x);
    assert(q.skip(8 + n as int) =~= y);
    encode_utf8_decode_utf8(a);
    encode_utf8_decode_utf8(b);
}

} // verus!
