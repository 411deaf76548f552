//! Multi-rate padding (`10*1`) of a sponge's input.

use crate::bits::{max_bits, repeat_bit, Bits};
use vstd::arithmetic::div_mod::{lemma_add_mod_noop, lemma_mod_self_0, lemma_small_mod};
use vstd::prelude::*;

verus! {

/// How many `0` bits the `10*1` padding puts between its two `1` bits for
/// a message of `len` bits: the fewest that make the padded length a
/// multiple of `rate`.
pub open spec fn pad_zeros(len: nat, rate: nat) -> nat {
    (rate - 1 - (len + 1) % rate) as nat
}

/// `msg` followed by the multi-rate padding `1 0^k 1`, with `k` from
/// `pad_zeros`.
pub open spec fn pad10star1(msg: Seq<bool>, rate: nat) -> Seq<bool> {
    (msg.push(true) + repeat_bit(false, pad_zeros(msg.len(), rate))).push(true)
}

/// The `10*1` padding: the message, a `1` bit, `0` bits, and a last `1`
/// bit, in a whole number of blocks of `rate` bits, the fewest with room for
/// the message and two bits.
pub proof fn lemma_pad10star1(msg: Seq<bool>, rate: nat)
    requires
        rate >= 1,
    ensures
        pad10star1(msg, rate).len() % rate == 0,
        msg.len() + 2 <= pad10star1(msg, rate).len() < msg.len() + 2 + rate,
        pad10star1(msg, rate).subrange(0, msg.len() as int) == msg,
        pad10star1(msg, rate)[msg.len() as int],
        pad10star1(msg, rate)[pad10star1(msg, rate).len() - 1],
        forall|i: int|
            msg.len() < i < pad10star1(msg, rate).len() - 1 ==> !#[trigger] pad10star1(msg, rate)[i],
{
    let p = pad10star1(msg, rate);
    let k = pad_zeros(msg.len(), rate);
    let a = (msg.len() + 1) as int;
    lemma_add_mod_noop(a + k, 1, rate as int);
    lemma_mod_self_0(rate as int);
    if rate > 1 {
        lemma_small_mod(1, rate);
    } else {
        lemma_mod_self_0(1);
    }
    lemma_add_mod_noop(a, k as int, rate as int);
    lemma_small_mod(k, rate);
    lemma_small_mod(((msg.len() + 1) % rate + k) as nat, rate);
    assert((a + k) % (rate as int) == rate - 1);
    assert((a + k + 1) % (rate as int) == 0);
    assert(p.subrange(0, msg.len() as int) =~= msg);
}

/// The padding that `pad` appends depends on the message's length modulo
/// the rate alone.
pub proof fn lemma_padding_depends_on_length(m1: Seq<bool>, m2: Seq<bool>, rate: nat)
    requires
        rate >= 1,
        m1.len() % rate == m2.len() % rate,
    ensures
        pad10star1(m1, rate).subrange(m1.len() as int, pad10star1(m1, rate).len() as int)
            == pad10star1(m2, rate).subrange(m2.len() as int, pad10star1(m2, rate).len() as int),
{
    lemma_add_mod_noop(m1.len() as int, 1, rate as int);
    lemma_add_mod_noop(m2.len() as int, 1, rate as int);
    assert(pad_zeros(m1.len(), rate) == pad_zeros(m2.len(), rate));
    let t = seq![true] + repeat_bit(false, pad_zeros(m1.len(), rate)) + seq![true];
    assert(pad10star1(m1, rate) =~= m1 + t);
    assert(pad10star1(m2, rate) =~= m2 + t);
    assert(pad10star1(m1, rate).subrange(m1.len() as int, pad10star1(m1, rate).len() as int) =~= t);
    assert(pad10star1(m2, rate).subrange(m2.len() as int, pad10star1(m2, rate).len() as int) =~= t);
}

/// Appends the bit string `1 0* 1` to `n`, with as many `0`s as it takes to
/// make the length a multiple of `rate`; a bit string that is already a
/// multiple of `rate` long still gets at least `11`.
pub fn pad(n: &mut Bits, rate: u16) -> (r: &Bits)
    requires
        rate >= 1,
        old(n)@.len() + rate + 1 <= max_bits(),
    ensures
        final(n)@ == pad10star1(old(n)@, rate as nat),
        r@ == final(n)@,
        final(n)@.len() % (rate as nat) == 0,
        old(n)@.len() + 2 <= final(n)@.len() < old(n)@.len() + 2 + rate,
        final(n)@.subrange(0, old(n)@.len() as int) == old(n)@,
        final(n)@[old(n)@.len() as int],
        final(n)@[final(n)@.len() - 1],
        forall|i: int| old(n)@.len() < i < final(n)@.len() - 1 ==> !#[trigger] final(n)@[i],
{
    let ghost msg = n@;
    let ghost r = rate as nat;
    let ghost k = pad_zeros(msg.len(), rate as nat);
    n.push(true);
    let ghost mut j: nat = 0;
    while (n.len() % rate as usize) < (rate as usize - 1)
        invariant
            rate >= 1,
            r == rate as nat,
            msg.len() + rate + 1 <= max_bits(),
            k == pad_zeros(msg.len(), rate as nat),
            j <= k,
            n@ == msg.push(true) + repeat_bit(false, j),
            (msg.len() + 1 + j) % r == (msg.len() + 1) % r + j,
        decreases k - j,
    {
        proof {
            if j == k {
                assert((msg.len() + 1 + j) % r == r - 1);
                assert(false);
            }
        }
        n.push(false);
        proof {
            j = j + 1;
            assert(n@ =~= msg.push(true) + repeat_bit(false, j));
            let a = (msg.len() + 1) as int;
            lemma_add_mod_noop(a, j as int, r as int);
            lemma_small_mod(j, r);
            lemma_small_mod(((msg.len() + 1) % r + j) as nat, r);
        }
    }
    n.push(true);
    proof {
        assert(j == k);
        assert(n@ =~= pad10star1(msg, rate as nat));
        let a = (msg.len() + 1 + k) as int;
        assert(a % (r as int) == r - 1);
        lemma_add_mod_noop(a, 1, r as int);
        lemma_mod_self_0(r as int);
        if r > 1 {
            lemma_small_mod(1, r);
        } else {
            lemma_mod_self_0(1);
        }
        assert((a + 1) % (r as int) == 0);
        assert(n@.subrange(0, msg.len() as int) =~= msg);
        lemma_pad10star1(msg, rate as nat);
    }
    n
}

} // verus!
