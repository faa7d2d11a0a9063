//! The bit buffer: bitvec's `BitVec<u8, _>` seen as a sequence of booleans,
//! and the integer reading of a run of bits under each ordering.

use bitvec::field::BitField;
use bitvec::order::{Lsb0, Msb0};
use bitvec::vec::BitVec;
use vstd::arithmetic::power2::{lemma2_to64, lemma_pow2_unfold, pow2};
use vstd::prelude::*;

verus! {

/// The largest number of bits that a buffer can hold.
pub const MAX_BITS: usize = usize::MAX >> 3;

/// Even where `usize` has 32 bits, a buffer can hold over half a billion bits.
pub proof fn lemma_max_bits()
    ensures
        MAX_BITS >= 0x1fff_ffff,
{
    let m: usize = usize::MAX;
    assert(m >= 0xffff_ffff);
    assert(m >= 0xffff_ffff ==> (m >> 3usize) >= 0x1fff_ffff) by (bit_vector);
}

/// A bit buffer whose first bit is the least significant one of its first byte.
#[verifier::external_body]
pub struct LsbBits {
    inner: BitVec<u8, Lsb0>,
}

/// A bit buffer whose first bit is the most significant one of its first byte.
#[verifier::external_body]
pub struct MsbBits {
    inner: BitVec<u8, Msb0>,
}

/// The bits held by a least-significant-first buffer, in index order.
pub uninterp spec fn lsb_contents(v: LsbBits) -> Seq<bool>;

/// The bits held by a most-significant-first buffer, in index order.
pub uninterp spec fn msb_contents(v: MsbBits) -> Seq<bool>;

/// One for a set bit, zero for a clear one.
pub open spec fn bit_value(b: bool) -> nat {
    if b { 1 } else { 0 }
}

/// The integer that a run of bits denotes when the first bit is the least significant.
pub open spec fn lsb_value(s: Seq<bool>) -> nat
    decreases s.len(),
{
    if s.len() == 0 {
        0
    } else {
        bit_value(s[0]) + 2 * lsb_value(s.drop_first())
    }
}

/// The `w` low bits of `x`, least significant first.
pub open spec fn lsb_bits(x: nat, w: nat) -> Seq<bool>
    decreases w,
{
    if w == 0 {
        Seq::empty()
    } else {
        seq![x % 2 == 1] + lsb_bits(x / 2, (w - 1) as nat)
    }
}

/// The integer that a run of bits denotes when the first bit is the most significant.
pub open spec fn msb_value(s: Seq<bool>) -> nat
    decreases s.len(),
{
    if s.len() == 0 {
        0
    } else {
        2 * msb_value(s.drop_last()) + bit_value(s.last())
    }
}

/// The `w` low bits of `x`, most significant first.
pub open spec fn msb_bits(x: nat, w: nat) -> Seq<bool>
    decreases w,
{
    if w == 0 {
        Seq::empty()
    } else {
        msb_bits(x / 2, (w - 1) as nat).push(x % 2 == 1)
    }
}

pub proof fn lemma_lsb_round_trip(x: nat, w: nat)
    requires
        x < pow2(w),
    ensures
        lsb_bits(x, w).len() == w,
        lsb_value(lsb_bits(x, w)) == x,
    decreases w,
{
    if w == 0 {
        lemma2_to64();
    } else {
        lemma_pow2_unfold(w);
        lemma_lsb_round_trip(x / 2, (w - 1) as nat);
        assert(lsb_bits(x, w).drop_first() =~= lsb_bits(x / 2, (w - 1) as nat));
    }
}

pub proof fn lemma_msb_round_trip(x: nat, w: nat)
    requires
        x < pow2(w),
    ensures
        msb_bits(x, w).len() == w,
        msb_value(msb_bits(x, w)) == x,
    decreases w,
{
    if w == 0 {
        lemma2_to64();
    } else {
        lemma_pow2_unfold(w);
        lemma_msb_round_trip(x / 2, (w - 1) as nat);
        assert(msb_bits(x, w).drop_last() =~= msb_bits(x / 2, (w - 1) as nat));
    }
}

/// Relies on `BitVec::new`: an empty buffer.
#[verifier::external_body]
fn lsb_new() -> (r: LsbBits)
    ensures
        lsb_contents(r) == Seq::<bool>::empty(),
{
    LsbBits { inner: BitVec::new() }
}

/// Relies on `BitVec::len`: the number of bits held.
#[verifier::external_body]
fn lsb_len(v: &LsbBits) -> (r: usize)
    ensures
        r == lsb_contents(*v).len(),
        r <= MAX_BITS,
{
    v.inner.len()
}

/// Relies on indexing a `BitSlice`: the bit at index `i`, which must exist.
#[verifier::external_body]
fn lsb_get(v: &LsbBits, i: usize) -> (r: bool)
    requires
        i < lsb_contents(*v).len(),
    ensures
        r == lsb_contents(*v)[i as int],
{
    v.inner[i]
}

/// Relies on `BitVec::push`: appends one bit; it panics past `MAX_BITS`.
#[verifier::external_body]
fn lsb_push(v: &mut LsbBits, b: bool)
    requires
        lsb_contents(*old(v)).len() < MAX_BITS,
    ensures
        lsb_contents(*final(v)) == lsb_contents(*old(v)).push(b),
{
    v.inner.push(b)
}

/// Relies on `BitVec::extend_from_bitslice`: appends the bits of `other` in
/// order; it panics past `MAX_BITS`.
#[verifier::external_body]
fn lsb_extend(v: &mut LsbBits, other: &LsbBits)
    requires
        lsb_contents(*old(v)).len() + lsb_contents(*other).len() <= MAX_BITS,
    ensures
        lsb_contents(*final(v)) == lsb_contents(*old(v)) + lsb_contents(*other),
{
    v.inner.extend_from_bitslice(other.inner.as_bitslice())
}

/// Relies on `BitVec::resize`: grows the buffer to `n` bits with zero bits; it
/// panics past `MAX_BITS`.
#[verifier::external_body]
fn lsb_resize(v: &mut LsbBits, n: usize)
    requires
        lsb_contents(*old(v)).len() <= n <= MAX_BITS,
    ensures
        lsb_contents(*final(v)) == lsb_contents(*old(v)) + Seq::new(
            (n - lsb_contents(*old(v)).len()) as nat,
            |i: int| false,
        ),
{
    v.inner.resize(n, false)
}

/// Relies on `BitField::load_le` of `BitSlice<u8, Lsb0>`: the integer held by the
/// `width` bits from `start`; it panics for a width of 0 or above 64.
#[verifier::external_body]
fn lsb_load(v: &LsbBits, start: usize, width: usize) -> (r: u64)
    requires
        1 <= width <= 64,
        start + width <= lsb_contents(*v).len(),
    ensures
        r as nat == lsb_value(lsb_contents(*v).subrange(start as int, start + width)),
{
    v.inner[start..][..width].load_le::<u64>()
}

/// Relies on `BitField::store_le` of `BitSlice<u8, Lsb0>`: writes the low bits of
/// `x` over the whole buffer; it panics for a length of 0 or above 64.
#[verifier::external_body]
fn lsb_store(v: &mut LsbBits, x: u64)
    requires
        1 <= lsb_contents(*old(v)).len() <= 64,
    ensures
        lsb_contents(*final(v)) == lsb_bits(
            x as nat % pow2(lsb_contents(*old(v)).len()),
            lsb_contents(*old(v)).len(),
        ),
{
    v.inner.store_le::<u64>(x)
}

/// Relies on `BitVec::new`: an empty buffer.
#[verifier::external_body]
fn msb_new() -> (r: MsbBits)
    ensures
        msb_contents(r) == Seq::<bool>::empty(),
{
    MsbBits { inner: BitVec::new() }
}

/// Relies on `BitVec::len`: the number of bits held.
#[verifier::external_body]
fn msb_len(v: &MsbBits) -> (r: usize)
    ensures
        r == msb_contents(*v).len(),
        r <= MAX_BITS,
{
    v.inner.len()
}

/// Relies on indexing a `BitSlice`: the bit at index `i`, which must exist.
#[verifier::external_body]
fn msb_get(v: &MsbBits, i: usize) -> (r: bool)
    requires
        i < msb_contents(*v).len(),
    ensures
        r == msb_contents(*v)[i as int],
{
    v.inner[i]
}

/// Relies on `BitVec::push`: appends one bit; it panics past `MAX_BITS`.
#[verifier::external_body]
fn msb_push(v: &mut MsbBits, b: bool)
    requires
        msb_contents(*old(v)).len() < MAX_BITS,
    ensures
        msb_contents(*final(v)) == msb_contents(*old(v)).push(b),
{
    v.inner.push(b)
}

/// Relies on `BitVec::extend_from_bitslice`: appends the bits of `other` in
/// order; it panics past `MAX_BITS`.
#[verifier::external_body]
fn msb_extend(v: &mut MsbBits, other: &MsbBits)
    requires
        msb_contents(*old(v)).len() + msb_contents(*other).len() <= MAX_BITS,
    ensures
        msb_contents(*final(v)) == msb_contents(*old(v)) + msb_contents(*other),
{
    v.inner.extend_from_bitslice(other.inner.as_bitslice())
}

/// Relies on `BitVec::resize`: grows the buffer to `n` bits with zero bits; it
/// panics past `MAX_BITS`.
#[verifier::external_body]
fn msb_resize(v: &mut MsbBits, n: usize)
    requires
        msb_contents(*old(v)).len() <= n <= MAX_BITS,
    ensures
        msb_contents(*final(v)) == msb_contents(*old(v)) + Seq::new(
            (n - msb_contents(*old(v)).len()) as nat,
            |i: int| false,
        ),
{
    v.inner.resize(n, false)
}

/// Relies on `BitField::load_be` of `BitSlice<u8, Msb0>`: the integer held by the
/// `width` bits from `start`; it panics for a width of 0 or above 64.
#[verifier::external_body]
fn msb_load(v: &MsbBits, start: usize, width: usize) -> (r: u64)
    requires
        1 <= width <= 64,
        start + width <= msb_contents(*v).len(),
    ensures
        r as nat == msb_value(msb_contents(*v).subrange(start as int, start + width)),
{
    v.inner[start..][..width].load_be::<u64>()
}

/// Relies on `BitField::store_be` of `BitSlice<u8, Msb0>`: writes the low bits of
/// `x` over the whole buffer; it panics for a length of 0 or above 64.
#[verifier::external_body]
fn msb_store(v: &mut MsbBits, x: u64)
    requires
        1 <= msb_contents(*old(v)).len() <= 64,
    ensures
        msb_contents(*final(v)) == msb_bits(
            x as nat % pow2(msb_contents(*old(v)).len()),
            msb_contents(*old(v)).len(),
        ),
{
    v.inner.store_be::<u64>(x)
}

/// A growable sequence of bits under one fixed bit ordering.
pub trait BitBuffer: Sized {
    /// The bits held, in index order.
    spec fn bits(&self) -> Seq<bool>;

    /// The integer that a run of bits denotes under this ordering.
    spec fn value_of(s: Seq<bool>) -> nat;

    /// The `w` low bits of `x` under this ordering.
    spec fn bits_of(x: nat, w: nat) -> Seq<bool>;

    proof fn lemma_bits_of(x: nat, w: nat)
        requires
            x < pow2(w),
        ensures
            Self::bits_of(x, w).len() == w,
            Self::value_of(Self::bits_of(x, w)) == x,
    ;

    fn empty() -> (r: Self)
        ensures
            r.bits() == Seq::<bool>::empty(),
    ;

    fn bit_len(&self) -> (r: usize)
        ensures
            r == self.bits().len(),
            r <= MAX_BITS,
    ;

    fn bit_at(&self, i: usize) -> (r: bool)
        requires
            i < self.bits().len(),
        ensures
            r == self.bits()[i as int],
    ;

    fn push_bit(&mut self, b: bool)
        requires
            old(self).bits().len() < MAX_BITS,
        ensures
            final(self).bits() == old(self).bits().push(b),
    ;

    fn append_bits(&mut self, other: &Self)
        requires
            old(self).bits().len() + other.bits().len() <= MAX_BITS,
        ensures
            final(self).bits() == old(self).bits() + other.bits(),
    ;

    /// Grows the buffer to `n` bits with zero bits.
    fn pad_zeros(&mut self, n: usize)
        requires
            old(self).bits().len() <= n <= MAX_BITS,
        ensures
            final(self).bits() == old(self).bits() + Seq::new(
                (n - old(self).bits().len()) as nat,
                |i: int| false,
            ),
    ;

    /// The integer held by the `width` bits from `start`.
    fn load_uint(&self, start: usize, width: usize) -> (r: u64)
        requires
            1 <= width <= 64,
            start + width <= self.bits().len(),
        ensures
            r as nat == Self::value_of(self.bits().subrange(start as int, start + width)),
    ;

    /// Overwrites the whole buffer with the low bits of `x`.
    fn store_uint(&mut self, x: u64)
        requires
            1 <= old(self).bits().len() <= 64,
        ensures
            final(self).bits() == Self::bits_of(
                x as nat % pow2(old(self).bits().len()),
                old(self).bits().len(),
            ),
    ;
}

impl BitBuffer for LsbBits {
    open spec fn bits(&self) -> Seq<bool> {
        lsb_contents(*self)
    }

    open spec fn value_of(s: Seq<bool>) -> nat {
        lsb_value(s)
    }

    open spec fn bits_of(x: nat, w: nat) -> Seq<bool> {
        lsb_bits(x, w)
    }

    proof fn lemma_bits_of(x: nat, w: nat) {
        lemma_lsb_round_trip(x, w);
    }

    fn empty() -> (r: Self) {
        lsb_new()
    }

    fn bit_len(&self) -> (r: usize) {
        lsb_len(self)
    }

    fn bit_at(&self, i: usize) -> (r: bool) {
        lsb_get(self, i)
    }

    fn push_bit(&mut self, b: bool) {
        lsb_push(self, b)
    }

    fn append_bits(&mut self, other: &Self) {
        lsb_extend(self, other)
    }

    fn pad_zeros(&mut self, n: usize) {
        lsb_resize(self, n)
    }

    fn load_uint(&self, start: usize, width: usize) -> (r: u64) {
        lsb_load(self, start, width)
    }

    fn store_uint(&mut self, x: u64) {
        lsb_store(self, x)
    }
}

impl BitBuffer for MsbBits {
    open spec fn bits(&self) -> Seq<bool> {
        msb_contents(*self)
    }

    open spec fn value_of(s: Seq<bool>) -> nat {
        msb_value(s)
    }

    open spec fn bits_of(x: nat, w: nat) -> Seq<bool> {
        msb_bits(x, w)
    }

    proof fn lemma_bits_of(x: nat, w: nat) {
        lemma_msb_round_trip(x, w);
    }

    fn empty() -> (r: Self) {
        msb_new()
    }

    fn bit_len(&self) -> (r: usize) {
        msb_len(self)
    }

    fn bit_at(&self, i: usize) -> (r: bool) {
        msb_get(self, i)
    }

    fn push_bit(&mut self, b: bool) {
        msb_push(self, b)
    }

    fn append_bits(&mut self, other: &Self) {
        msb_extend(self, other)
    }

    fn pad_zeros(&mut self, n: usize) {
        msb_resize(self, n)
    }

    fn load_uint(&self, start: usize, width: usize) -> (r: u64) {
        msb_load(self, start, width)
    }

    fn store_uint(&mut self, x: u64) {
        msb_store(self, x)
    }
}

} // verus!
