//! The bit strings of this crate. A `Bits` owns a `bitvec::vec::BitVec`
//! (least significant bit first in `usize` words), which Verus sees only
//! through the sequence of bits it holds.

use bitvec::vec::BitVec;
use vstd::prelude::*;

verus! {

/// A growable string of bits, backed by `bitvec`'s `BitVec`.
#[verifier::external_body]
pub struct Bits {
    inner: BitVec,
}

/// The bits that a bit string holds, first bit first.
pub uninterp spec fn bits(v: Bits) -> Seq<bool>;

impl View for Bits {
    type V = Seq<bool>;

    open spec fn view(&self) -> Seq<bool> {
        bits(*self)
    }
}

/// The most bits that a `BitVec` can hold: `BitSlice::MAX_BITS`, which is
/// `usize::MAX >> 3`.
pub open spec fn max_bits() -> nat {
    (usize::MAX as nat) / 8
}

/// `a ^ b` on bit strings: as long as `a`; where `b` has no bit, `a`'s bit
/// is kept.
pub open spec fn xor_bits(a: Seq<bool>, b: Seq<bool>) -> Seq<bool> {
    Seq::new(a.len(), |i: int| a[i] != (i < b.len() && b[i]))
}

/// `a & b` on bit strings: as long as `a`; where `b` has no bit, the result
/// bit is clear.
pub open spec fn and_bits(a: Seq<bool>, b: Seq<bool>) -> Seq<bool> {
    Seq::new(a.len(), |i: int| a[i] && i < b.len() && b[i])
}

/// Every bit of `a` inverted.
pub open spec fn not_bits(a: Seq<bool>) -> Seq<bool> {
    Seq::new(a.len(), |i: int| !a[i])
}

/// `a` rotated right by `by` places: the last `by` bits come first.
pub open spec fn rotr_bits(a: Seq<bool>, by: nat) -> Seq<bool> {
    Seq::new(a.len(), |j: int| a[(j + a.len() - by) % (a.len() as int)])
}

/// `n` copies of the bit `b`.
pub open spec fn repeat_bit(b: bool, n: nat) -> Seq<bool> {
    Seq::new(n, |i: int| b)
}

impl Bits {
    /// An empty bit string.
    pub fn new() -> (r: Bits)
        ensures
            r@ == Seq::<bool>::empty(),
    {
        bv_new()
    }

    /// The number of bits held.
    pub fn len(&self) -> (r: usize)
        ensures
            r as nat == self@.len(),
            r as nat <= max_bits(),
    {
        bv_len(self)
    }

    /// The bit at `i`.
    pub fn get(&self, i: usize) -> (r: bool)
        requires
            i < self@.len(),
        ensures
            r == self@[i as int],
    {
        bv_get(self, i)
    }

    /// Appends one bit.
    pub fn push(&mut self, bit: bool)
        requires
            old(self)@.len() < max_bits(),
        ensures
            final(self)@ == old(self)@.push(bit),
    {
        bv_push(self, bit)
    }

    /// Grows to `new_len` bits with copies of `value`, or truncates to
    /// `new_len` bits.
    pub fn resize(&mut self, new_len: usize, value: bool)
        requires
            new_len <= max_bits(),
        ensures
            final(self)@ == if new_len > old(self)@.len() {
                old(self)@ + repeat_bit(value, (new_len - old(self)@.len()) as nat)
            } else {
                old(self)@.subrange(0, new_len as int)
            },
    {
        bv_resize(self, new_len, value)
    }

    /// Appends all the bits of `other`.
    pub fn extend(&mut self, other: Bits)
        requires
            old(self)@.len() + other@.len() <= max_bits(),
        ensures
            final(self)@ == old(self)@ + other@,
    {
        bv_extend(self, other)
    }

    /// A bit string holding the given bits, in order.
    pub fn from_bools(v: &[bool]) -> (r: Bits)
        requires
            v@.len() <= max_bits(),
        ensures
            r@ == v@,
    {
        let mut r = bv_new();
        let mut i: usize = 0;
        while i < v.len()
            invariant
                i <= v@.len() <= max_bits(),
                r@ == v@.subrange(0, i as int),
            decreases v@.len() - i,
        {
            bv_push(&mut r, v[i]);
            i = i + 1;
            assert(r@ =~= v@.subrange(0, i as int));
        }
        assert(r@ =~= v@);
        r
    }

    /// The bits held, in order.
    pub fn to_bools(&self) -> (r: Vec<bool>)
        ensures
            r@ == self@,
    {
        let n = bv_len(self);
        let mut r: Vec<bool> = Vec::new();
        let mut i: usize = 0;
        while i < n
            invariant
                n as nat == self@.len(),
                i <= n,
                r@ == self@.subrange(0, i as int),
            decreases n - i,
        {
            r.push(bv_get(self, i));
            i = i + 1;
            assert(r@ =~= self@.subrange(0, i as int));
        }
        assert(r@ =~= self@);
        r
    }
}

/// Wraps `BitVec::new`: the new bit-vector holds no bits.
#[verifier::external_body]
pub(crate) fn bv_new() -> (r: Bits)
    ensures
        bits(r) == Seq::<bool>::empty(),
{
    Bits { inner: BitVec::new() }
}

/// Wraps `BitVec::len`: the number of bits held, which `BitVec` never lets
/// grow past `BitSlice::MAX_BITS`.
#[verifier::external_body]
pub(crate) fn bv_len(v: &Bits) -> (r: usize)
    ensures
        r as nat == bits(*v).len(),
        r as nat <= max_bits(),
{
    v.inner.len()
}

/// Wraps indexing with `BitSlice`'s `Index<usize>`: the bit at `i`.
#[verifier::external_body]
pub(crate) fn bv_get(v: &Bits, i: usize) -> (r: bool)
    requires
        i < bits(*v).len(),
    ensures
        r == bits(*v)[i as int],
{
    v.inner[i]
}

/// Wraps `BitVec::push`: appends one bit. `push` asserts that the length
/// stays within `BitSlice::MAX_BITS`.
#[verifier::external_body]
pub(crate) fn bv_push(v: &mut Bits, bit: bool)
    requires
        bits(*old(v)).len() < max_bits(),
    ensures
        bits(*final(v)) == bits(*old(v)).push(bit),
{
    v.inner.push(bit)
}

/// Wraps `BitVec::resize`: grows to `new_len` with copies of `value`, or
/// truncates to `new_len`. Growing reserves room, which panics past
/// `BitSlice::MAX_BITS`.
#[verifier::external_body]
pub(crate) fn bv_resize(v: &mut Bits, new_len: usize, value: bool)
    requires
        new_len <= max_bits(),
    ensures
        bits(*final(v)) == if new_len > bits(*old(v)).len() {
            bits(*old(v)) + repeat_bit(value, (new_len - bits(*old(v)).len()) as nat)
        } else {
            bits(*old(v)).subrange(0, new_len as int)
        },
{
    v.inner.resize(new_len, value)
}

/// Wraps `Extend<bool>::extend` of `BitVec`, fed with another `BitVec`:
/// appends all its bits. It reserves room, which panics past
/// `BitSlice::MAX_BITS`.
#[verifier::external_body]
pub(crate) fn bv_extend(v: &mut Bits, other: Bits)
    requires
        bits(*old(v)).len() + bits(other).len() <= max_bits(),
    ensures
        bits(*final(v)) == bits(*old(v)) + bits(other),
{
    v.inner.extend(other.inner)
}

/// Wraps `BitSlice::to_bitvec` on the range `start..end` of a bit-vector:
/// a new bit-vector holding those bits. Indexing by the range panics
/// unless `start <= end <= len`.
#[verifier::external_body]
pub(crate) fn bv_copy_range(v: &Bits, start: usize, end: usize) -> (r: Bits)
    requires
        start <= end <= bits(*v).len(),
    ensures
        bits(r) == bits(*v).subrange(start as int, end as int),
{
    Bits { inner: v.inner[start..end].to_bitvec() }
}

/// Wraps `Clone::clone` of `BitVec`: a bit-vector with the same bits.
#[verifier::external_body]
pub(crate) fn bv_clone(v: &Bits) -> (r: Bits)
    ensures
        bits(r) == bits(*v),
{
    Bits { inner: v.inner.clone() }
}

/// Wraps `BitXor` of `BitVec` with another `BitVec`: each bit of `a` xored
/// with the bit of `b` at the same place, or with `false` where `b` has
/// none (`BitSlice`'s `BitXorAssign` reads `iter.next().unwrap_or(false)`).
#[verifier::external_body]
pub(crate) fn bv_xor(a: Bits, b: Bits) -> (r: Bits)
    ensures
        bits(r) == xor_bits(bits(a), bits(b)),
{
    Bits { inner: a.inner ^ b.inner }
}

/// Wraps `BitAnd` of `BitVec` with another `BitVec`: each bit of `a` anded
/// with the bit of `b` at the same place, or with `false` where `b` has
/// none.
#[verifier::external_body]
pub(crate) fn bv_and(a: Bits, b: Bits) -> (r: Bits)
    ensures
        bits(r) == and_bits(bits(a), bits(b)),
{
    Bits { inner: a.inner & b.inner }
}

/// Wraps `Not` of `BitVec`: every held bit inverted.
#[verifier::external_body]
pub(crate) fn bv_not(a: Bits) -> (r: Bits)
    ensures
        bits(r) == not_bits(bits(a)),
{
    Bits { inner: !a.inner }
}

/// Wraps `BitSlice::rotate_right`, which panics when `by` is above the
/// length.
#[verifier::external_body]
pub(crate) fn bv_rotate_right(v: &mut Bits, by: usize)
    requires
        by <= bits(*old(v)).len(),
    ensures
        bits(*final(v)) == rotr_bits(bits(*old(v)), by as nat),
{
    v.inner.rotate_right(by)
}

} // verus!
