//! Message padding for SHA-1 (RFC 3174, section 4), over bit strings and
//! over bytes, and the `10*1` padding at a rate of 256 bits.

use crate::bits::{max_bits, repeat_bit, Bits};
use crate::keccak::{self, pad10star1};
use vstd::prelude::*;

verus! {

/// The `k` low bits of `x`, most significant first.
pub open spec fn be_bits(x: nat, k: nat) -> Seq<bool>
    decreases k,
{
    if k == 0 {
        Seq::empty()
    } else {
        be_bits(x / 2, (k - 1) as nat).push(x % 2 == 1)
    }
}

/// The `0` bits that SHA-1 padding puts after the `1` bit of a message of
/// `len` bits: the fewest that bring the length to 448 modulo 512.
pub open spec fn pad_zeros(len: nat) -> nat {
    ((448 + 512 - (len + 1) % 512) % 512) as nat
}

/// `msg` padded as SHA-1 pads a message: a `1` bit, `0` bits up to 448
/// modulo 512, then the message's length in bits as a 64-bit integer, most
/// significant bit first.
pub open spec fn pad_bits(msg: Seq<bool>) -> Seq<bool> {
    msg.push(true) + repeat_bit(false, pad_zeros(msg.len())) + be_bits(msg.len(), 64)
}

/// SHA-1 padding of a bit string: the message, then a `1` bit, then `0`
/// bits, then 64 bits that write the message's length, in whole 512-bit
/// blocks, the fewest with room for the message, the `1` bit and the
/// length.
pub proof fn lemma_pad_bits(msg: Seq<bool>)
    requires
        msg.len() < power(2, 64),
    ensures
        pad_bits(msg).len() % 512 == 0,
        msg.len() + 65 <= pad_bits(msg).len() < msg.len() + 65 + 512,
        pad_bits(msg).subrange(0, msg.len() as int) == msg,
        pad_bits(msg)[msg.len() as int],
        forall|i: int| msg.len() < i < pad_bits(msg).len() - 64 ==> !#[trigger] pad_bits(msg)[i],
        bits_value(pad_bits(msg).subrange(pad_bits(msg).len() - 64, pad_bits(msg).len() as int))
            == msg.len(),
{
    let p = pad_bits(msg);
    lemma_be_bits_len(msg.len(), 64);
    lemma_be_bits_value(msg.len(), 64);
    assert(p.subrange(0, msg.len() as int) =~= msg);
    assert(p.subrange(p.len() - 64, p.len() as int) =~= be_bits(msg.len(), 64));
    assert((msg.len() + 1 + pad_zeros(msg.len())) % 512 == 448);
}

/// `be_bits(x, k)` is `k` bits long.
pub proof fn lemma_be_bits_len(x: nat, k: nat)
    ensures
        be_bits(x, k).len() == k,
    decreases k,
{
    if k > 0 {
        lemma_be_bits_len(x / 2, (k - 1) as nat);
    }
}

/// The padding that `pad` appends depends on the message's length alone.
pub proof fn lemma_pad_depends_on_length(m1: Seq<bool>, m2: Seq<bool>)
    requires
        m1.len() == m2.len(),
    ensures
        pad_bits(m1).len() == pad_bits(m2).len(),
        pad_bits(m1).subrange(m1.len() as int, pad_bits(m1).len() as int) == pad_bits(
            m2,
        ).subrange(m2.len() as int, pad_bits(m2).len() as int),
{
    let t = repeat_bit(false, pad_zeros(m1.len())) + be_bits(m1.len(), 64);
    assert(pad_bits(m1) =~= m1 + (seq![true] + t));
    assert(pad_bits(m2) =~= m2 + (seq![true] + t));
    assert(pad_bits(m1).subrange(m1.len() as int, pad_bits(m1).len() as int) =~= seq![true] + t);
    assert(pad_bits(m2).subrange(m2.len() as int, pad_bits(m2).len() as int) =~= seq![true] + t);
}

/// The `k` low bits of `x`, most significant first.
fn be_bits_of(x: u64, k: usize) -> (r: Bits)
    requires
        k <= 64,
    ensures
        r@ == be_bits(x as nat, k as nat),
        r@.len() == k,
    decreases k,
{
    if k == 0 {
        Bits::new()
    } else {
        let mut r = be_bits_of(x / 2, k - 1);
        r.push(x % 2 == 1);
        r
    }
}

/// Pads `n` as SHA-1 pads a message: a `1` bit, then `0` bits up to 448
/// modulo 512, then the length of `n` in bits as a 64-bit integer, most
/// significant bit first, so that the result is a whole number of 512-bit
/// blocks.
pub fn pad(n: &mut Bits) -> (r: &Bits)
    requires
        old(n)@.len() + 1 + pad_zeros(old(n)@.len()) + 64 <= max_bits(),
    ensures
        final(n)@ == pad_bits(old(n)@),
        r@ == final(n)@,
        final(n)@.len() % 512 == 0,
        old(n)@.len() + 65 <= final(n)@.len() < old(n)@.len() + 65 + 512,
        final(n)@.subrange(0, old(n)@.len() as int) == old(n)@,
        final(n)@[old(n)@.len() as int],
        final(n)@.subrange(final(n)@.len() - 64, final(n)@.len() as int) == be_bits(
            old(n)@.len(),
            64,
        ),
        forall|i: int| old(n)@.len() < i < final(n)@.len() - 64 ==> !#[trigger] final(n)@[i],
        bits_value(final(n)@.subrange(final(n)@.len() - 64, final(n)@.len() as int))
            == old(n)@.len(),
{
    let ghost msg = n@;
    let len = n.len();
    let mut trailing_words = Bits::new();
    trailing_words.push(true);
    let zeros = (448 + 512 - (len + 1) % 512) % 512;
    trailing_words.resize(1 + zeros, false);
    let length_bits = be_bits_of(len as u64, 64);
    trailing_words.extend(length_bits);
    proof {
        assert(trailing_words@ =~= seq![true] + repeat_bit(false, pad_zeros(msg.len()))
            + be_bits(msg.len(), 64));
    }
    n.extend(trailing_words);
    proof {
        assert(n@ =~= pad_bits(msg));
        assert(n@.subrange(0, msg.len() as int) =~= msg);
        assert(n@.subrange(n@.len() - 64, n@.len() as int) =~= be_bits(msg.len(), 64));
        assert((msg.len() + 1 + pad_zeros(msg.len())) % 512 == 448);
        lemma_power_64();
        lemma_pad_bits(msg);
    }
    n
}

/// Pads `n` with the bit string `1 0* 1`, with as many `0`s as it takes to
/// make the length a multiple of the rate, 256 bits; a bit string that
/// already is a multiple of 256 bits long still gets at least `11`.
pub fn pad_input2(n: &mut Bits) -> (r: &Bits)
    requires
        old(n)@.len() + 257 <= max_bits(),
    ensures
        final(n)@ == pad10star1(old(n)@, 256),
        r@ == final(n)@,
        final(n)@.len() % 256 == 0,
        old(n)@.len() + 2 <= final(n)@.len() < old(n)@.len() + 258,
        final(n)@.subrange(0, old(n)@.len() as int) == old(n)@,
{
    let rate: u16 = 256;
    keccak::pad(n, rate)
}

/// The padding that `pad_input2` appends depends on the message's length
/// modulo 256 alone.
pub proof fn lemma_pad_input2_depends_on_length(m1: Seq<bool>, m2: Seq<bool>)
    requires
        m1.len() % 256 == m2.len() % 256,
    ensures
        pad10star1(m1, 256).subrange(m1.len() as int, pad10star1(m1, 256).len() as int)
            == pad10star1(m2, 256).subrange(m2.len() as int, pad10star1(m2, 256).len() as int),
{
    keccak::lemma_padding_depends_on_length(m1, m2, 256);
}

/// `n` without the zero bytes at its end.
pub open spec fn trim_zero_tail(n: Seq<u8>) -> Seq<u8>
    decreases n.len(),
{
    if n.len() > 0 && n.last() == 0 {
        trim_zero_tail(n.drop_last())
    } else {
        n
    }
}

/// The message that `pad_input` reads from `n`: `n` holds it as a number
/// with its least significant byte first, so the message is `n` read from
/// its last byte to its first, leaving out the zero bytes at its end.
pub open spec fn message_of(n: Seq<u8>) -> Seq<u8> {
    trim_zero_tail(n).reverse()
}

/// The `k` bytes of `x mod 256^k`, most significant first.
pub open spec fn be_bytes(x: nat, k: nat) -> Seq<u8>
    decreases k,
{
    if k == 0 {
        Seq::empty()
    } else {
        be_bytes(x / 256, (k - 1) as nat).push((x % 256) as u8)
    }
}

/// The length in bytes of what `pad_input` pads a buffer of `width` bytes
/// to: the fewest whole 64-byte blocks with room for `width` bytes, the
/// `0x80` byte and the 8 length bytes.
pub open spec fn padded_len(width: nat) -> nat {
    ((width + 72) / 64 * 64) as nat
}

/// A message of whole bytes, held in a buffer of `width` bytes, padded as
/// RFC 3174, section 4, describes: a `1` bit (the byte `0x80` with the `0`s
/// after it), `0` bytes, and the message's length in bits as 8 bytes, most
/// significant first; `padded_len(width)` bytes in all.
pub open spec fn sha1_padded(m: Seq<u8>, width: nat) -> Seq<u8> {
    m.push(0x80u8) + Seq::new((padded_len(width) - m.len() - 9) as nat, |i: int| 0u8)
        + be_bytes(8 * m.len(), 8)
}

/// Bytes written as hexadecimal digits, one digit a byte, the high digit of
/// each byte first.
pub open spec fn hex_digits(b: Seq<u8>) -> Seq<u8> {
    Seq::new(2 * b.len(), |i: int| if i % 2 == 0 { b[i / 2] / 16 } else { b[i / 2] % 16 })
}

/// `be_bytes(x, k)` is `k` bytes long.
pub proof fn lemma_be_bytes_len(x: nat, k: nat)
    ensures
        be_bytes(x, k).len() == k,
    decreases k,
{
    if k > 0 {
        lemma_be_bytes_len(x / 256, (k - 1) as nat);
    }
}

/// The padding keeps the message as it is at the start, puts the byte
/// `0x80` right after it, `0` bytes after that and the message's bit length
/// in the last 8 bytes, and makes the length a whole number of 64-byte
/// blocks, the fewest with room for the whole buffer, the `0x80` byte and
/// the length: from 9 to 72 bytes more than the buffer.
pub proof fn lemma_sha1_padded(m: Seq<u8>, width: nat)
    requires
        m.len() <= width,
    ensures
        sha1_padded(m, width).len() == padded_len(width),
        padded_len(width) % 64 == 0,
        width + 9 <= padded_len(width) <= width + 72,
        sha1_padded(m, width).subrange(0, m.len() as int) == m,
        sha1_padded(m, width)[m.len() as int] == 0x80u8,
        sha1_padded(m, width).subrange(padded_len(width) - 8, padded_len(width) as int)
            == be_bytes(8 * m.len(), 8),
        forall|i: int|
            m.len() < i < padded_len(width) - 8 ==> #[trigger] sha1_padded(m, width)[i] == 0u8,
{
    lemma_be_bytes_len(8 * m.len(), 8);
    let p = sha1_padded(m, width);
    assert(p.len() == padded_len(width));
    assert(p.subrange(0, m.len() as int) =~= m);
    assert(p.subrange(p.len() - 8, p.len() as int) =~= be_bytes(8 * m.len(), 8));
}

/// Each hexadecimal digit is below 16, there are two for each byte, and
/// the two digits of a byte are its high and low halves.
pub proof fn lemma_hex_digits(b: Seq<u8>)
    ensures
        hex_digits(b).len() == 2 * b.len(),
        forall|i: int| 0 <= i < hex_digits(b).len() ==> #[trigger] hex_digits(b)[i] < 16,
        forall|i: int|
            0 <= i < b.len() ==> #[trigger] b[i] == hex_digits(b)[2 * i] * 16 + hex_digits(b)[2
                * i + 1],
{
    assert forall|i: int| 0 <= i < b.len() implies #[trigger] b[i] == hex_digits(b)[2 * i] * 16
        + hex_digits(b)[2 * i + 1] by {
        assert((2 * i) / 2 == i && (2 * i) % 2 == 0);
        assert((2 * i + 1) / 2 == i && (2 * i + 1) % 2 == 1);
    }
}

/// `b` to the power `e`.
pub open spec fn power(b: nat, e: nat) -> nat
    decreases e,
{
    if e == 0 {
        1
    } else {
        b * power(b, (e - 1) as nat)
    }
}

/// The number that digits in base `base` write, most significant first.
pub open spec fn digits_value(d: Seq<u8>, base: nat) -> nat
    decreases d.len(),
{
    if d.len() == 0 {
        0
    } else {
        digits_value(d.drop_last(), base) * base + d.last() as nat
    }
}

/// The number that bits write, most significant first.
pub open spec fn bits_value(b: Seq<bool>) -> nat
    decreases b.len(),
{
    if b.len() == 0 {
        0
    } else {
        bits_value(b.drop_last()) * 2 + if b.last() {
            1nat
        } else {
            0nat
        }
    }
}

/// `be_bytes(x, k)` writes `x` in base 256, when `x` has at most `k` digits.
pub proof fn lemma_be_bytes_value(x: nat, k: nat)
    requires
        x < power(256, k),
    ensures
        digits_value(be_bytes(x, k), 256) == x,
    decreases k,
{
    if k > 0 {
        let p = power(256, (k - 1) as nat);
        assert(x / 256 < p) by (nonlinear_arith)
            requires
                x < 256 * p,
        ;
        lemma_be_bytes_value(x / 256, (k - 1) as nat);
        assert(be_bytes(x, k).drop_last() =~= be_bytes(x / 256, (k - 1) as nat));
    }
}

/// `be_bits(x, k)` writes `x` in binary, when `x` has at most `k` bits.
pub proof fn lemma_be_bits_value(x: nat, k: nat)
    requires
        x < power(2, k),
    ensures
        bits_value(be_bits(x, k)) == x,
    decreases k,
{
    if k > 0 {
        let p = power(2, (k - 1) as nat);
        assert(x / 2 < p) by (nonlinear_arith)
            requires
                x < 2 * p,
        ;
        lemma_be_bits_value(x / 2, (k - 1) as nat);
        assert(be_bits(x, k).drop_last() =~= be_bits(x / 2, (k - 1) as nat));
    }
}

/// The hexadecimal digits of bytes write the same number as the bytes.
pub proof fn lemma_hex_value(b: Seq<u8>)
    ensures
        digits_value(hex_digits(b), 16) == digits_value(b, 256),
    decreases b.len(),
{
    if b.len() > 0 {
        let b0 = b.drop_last();
        let h = hex_digits(b);
        let v = b.last();
        lemma_hex_value(b0);
        assert(h.drop_last().drop_last() =~= hex_digits(b0));
        assert(h.last() == v % 16);
        assert(h.drop_last().last() == v / 16);
        assert(v == (v / 16) * 16 + v % 16);
        assert(digits_value(h, 16) == digits_value(h.drop_last(), 16) * 16 + h.last());
        assert(digits_value(h.drop_last(), 16) == digits_value(hex_digits(b0), 16) * 16 + h.drop_last().last());
        assert(digits_value(b, 256) == digits_value(b0, 256) * 256 + v);
    }
}

/// 2^64, as powers of 2 and of 256.
pub proof fn lemma_power_64()
    ensures
        power(2, 64) == 0x1_0000_0000_0000_0000nat,
        power(256, 8) == 0x1_0000_0000_0000_0000nat,
{
    reveal_with_fuel(power, 65);
}

/// What `trim_zero_tail` leaves: a prefix of `n`, with only zero bytes of
/// `n` after it, and not ending in a zero byte; and `message_of` is that
/// prefix from its last byte to its first.
pub proof fn lemma_message_of(n: Seq<u8>)
    ensures
        trim_zero_tail(n).len() <= n.len(),
        trim_zero_tail(n) == n.subrange(0, trim_zero_tail(n).len() as int),
        forall|j: int| trim_zero_tail(n).len() <= j < n.len() ==> #[trigger] n[j] == 0,
        trim_zero_tail(n).len() == 0 || n[trim_zero_tail(n).len() - 1] != 0,
        message_of(n).len() == trim_zero_tail(n).len(),
        forall|i: int|
            0 <= i < message_of(n).len() ==> #[trigger] message_of(n)[i] == n[trim_zero_tail(
                n,
            ).len() - 1 - i],
    decreases n.len(),
{
    if n.len() > 0 && n.last() == 0 {
        lemma_message_of(n.drop_last());
        let t = trim_zero_tail(n.drop_last());
        assert(n.drop_last().subrange(0, t.len() as int) =~= n.subrange(0, t.len() as int));
        assert forall|j: int| t.len() <= j < n.len() implies #[trigger] n[j] == 0 by {
            if j < n.len() - 1 {
                assert(n.drop_last()[j] == n[j]);
            }
        }
    } else {
        assert(n.subrange(0, n.len() as int) =~= n);
    }
}

/// The last 16 hexadecimal digits that `pad_input` returns write the
/// message's length in bits.
pub proof fn lemma_pad_input_length_field(n: Seq<u8>)
    requires
        n.len() < 0x2000_0000_0000_0000,
    ensures
        ({
            let out = hex_digits(sha1_padded(message_of(n), n.len()));
            digits_value(out.subrange(out.len() - 16, out.len() as int), 16) == 8 * message_of(
                n,
            ).len()
        }),
{
    lemma_message_of(n);
    let m = message_of(n);
    let p = sha1_padded(m, n.len());
    lemma_sha1_padded(m, n.len());
    let out = hex_digits(p);
    let tail = p.subrange(p.len() - 8, p.len() as int);
    assert forall|i: int| 0 <= i < 16 implies #[trigger] out.subrange(
        out.len() - 16,
        out.len() as int,
    )[i] == hex_digits(tail)[i] by {
        let q = out.len() - 16 + i;
        assert(q / 2 == p.len() - 8 + i / 2);
        assert(q % 2 == i % 2);
    }
    assert(out.subrange(out.len() - 16, out.len() as int) =~= hex_digits(tail));
    lemma_hex_value(tail);
    lemma_power_64();
    lemma_be_bytes_value(8 * m.len(), 8);
}


/// The `k` low bytes of `x`, most significant first.
fn be_bytes_of(x: u64, k: usize) -> (r: Vec<u8>)
    ensures
        r@ == be_bytes(x as nat, k as nat),
        r@.len() == k,
    decreases k,
{
    if k == 0 {
        Vec::new()
    } else {
        let mut r = be_bytes_of(x / 256, k - 1);
        r.push((x % 256) as u8);
        r
    }
}

/// Pads a message as SHA-1 does (RFC 3174, section 4) and returns the
/// padded message as hexadecimal digits, most significant first, one digit
/// in each byte of the result. `n` is a buffer holding the message as a
/// number, least significant byte first: the message is the bytes of `n`
/// from last to first, without the zero bytes at the end of `n`. The padded
/// message fills the fewest 64-byte blocks with room for the whole buffer,
/// so the result's length depends on the length of `n` alone.
pub fn pad_input(n: &mut [u8]) -> (r: Vec<u8>)
    requires
        old(n)@.len() < 0x2000_0000_0000_0000,
        old(n)@.len() + 72 <= usize::MAX / 2,
    ensures
        final(n)@ == old(n)@,
        r@ == hex_digits(sha1_padded(message_of(old(n)@), old(n)@.len())),
        r@.len() == 2 * padded_len(old(n)@.len()),
        r@.len() % 128 == 0,
        digits_value(r@.subrange(r@.len() - 16, r@.len() as int), 16) == 8 * message_of(
            old(n)@,
        ).len(),
        forall|i: int| 0 <= i < r@.len() ==> #[trigger] r@[i] < 16,
{
    let len = n.len();
    // The message ends where the zero bytes at the end of `n` begin.
    let mut m = len;
    assert(n@.subrange(0, m as int) =~= n@);
    while m > 0 && n[m - 1] == 0
        invariant
            m <= len == n@.len(),
            trim_zero_tail(n@) == trim_zero_tail(n@.subrange(0, m as int)),
        decreases m,
    {
        assert(n@.subrange(0, m as int).drop_last() =~= n@.subrange(0, m - 1));
        m = m - 1;
    }
    let ghost msg = message_of(n@);
    proof {
        assert(trim_zero_tail(n@.subrange(0, m as int)) == n@.subrange(0, m as int));
        assert(msg.len() == m);
    }
    let mut bytes: Vec<u8> = Vec::new();
    let mut i: usize = 0;
    while i < m
        invariant
            m <= len == n@.len(),
            i <= m,
            msg == n@.subrange(0, m as int).reverse(),
            msg.len() == m,
            bytes@ == msg.subrange(0, i as int),
        decreases m - i,
    {
        bytes.push(n[m - 1 - i]);
        i = i + 1;
        assert(bytes@ =~= msg.subrange(0, i as int));
    }
    assert(bytes@ =~= msg);
    bytes.push(0x80);
    let total = (len + 72) / 64 * 64;
    assert(total == padded_len(len as nat));
    let zeros = total - m - 9;
    let mut z: usize = 0;
    while z < zeros
        invariant
            zeros == padded_len(len as nat) - m - 9,
            m <= len,
            len + 72 <= usize::MAX / 2,
            z <= zeros,
            bytes@ == msg.push(0x80u8) + Seq::new(z as nat, |i: int| 0u8),
        decreases zeros - z,
    {
        bytes.push(0);
        z = z + 1;
        assert(bytes@ =~= msg.push(0x80u8) + Seq::new(z as nat, |i: int| 0u8));
    }
    let bit_len: u64 = (m as u64) * 8;
    let length_bytes = be_bytes_of(bit_len, 8);
    let mut b: usize = 0;
    while b < 8
        invariant
            length_bytes@ == be_bytes(8 * msg.len(), 8),
            length_bytes@.len() == 8,
            b <= 8,
            bytes@ == msg.push(0x80u8) + Seq::new((padded_len(len as nat) - m - 9) as nat, |i: int| 0u8)
                + length_bytes@.subrange(0, b as int),
        decreases 8 - b,
    {
        bytes.push(length_bytes[b]);
        b = b + 1;
        assert(bytes@ =~= msg.push(0x80u8) + Seq::new((padded_len(len as nat) - m - 9) as nat, |i: int| 0u8)
            + length_bytes@.subrange(0, b as int));
    }
    let ghost padded = sha1_padded(msg, len as nat);
    assert(bytes@ =~= padded);
    let mut out: Vec<u8> = Vec::new();
    let count = bytes.len();
    let mut p: usize = 0;
    while p < count
        invariant
            count == bytes@.len(),
            bytes@ == padded,
            count <= len + 72,
            len + 72 <= usize::MAX / 2,
            p <= count,
            out@ == hex_digits(padded.subrange(0, p as int)),
        decreases count - p,
    {
        let byte = bytes[p];
        out.push(byte / 16);
        out.push(byte % 16);
        p = p + 1;
        assert(out@ =~= hex_digits(padded.subrange(0, p as int)));
    }
    assert(padded.subrange(0, p as int) =~= padded);
    assert(out@.len() == 2 * padded_len(len as nat) && padded_len(len as nat) % 64 == 0) by {
        lemma_sha1_padded(msg, len as nat);
    }
    assert(forall|i: int| 0 <= i < out@.len() ==> #[trigger] out@[i] < 16) by {
        lemma_hex_digits(padded);
    }
    assert(digits_value(out@.subrange(out@.len() - 16, out@.len() as int), 16) == 8 * msg.len())
        by {
        lemma_pad_input_length_field(n@);
    }
    out
}

} // verus!
