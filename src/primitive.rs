//! The fixed-width codecs: booleans and signed and unsigned integers of 8, 16,
//! 32 and 64 bits. Each reads and writes exactly its width, under the ordering
//! of the buffer, and never touches the descriptor.

use crate::bits::{lemma_max_bits, BitBuffer};
use crate::field::{parsed, BinaryField};
use crate::options::{FieldError, Options};
use vstd::arithmetic::div_mod::lemma_small_mod;
use vstd::arithmetic::power2::{lemma2_to64, pow2};
use vstd::prelude::*;

verus! {

/// The unsigned integer denoted by the first `w` bits of `bits`, or the
/// shortfall when there are fewer.
pub open spec fn uint_read<B: BitBuffer>(bits: Seq<bool>, w: nat) -> Result<nat, FieldError> {
    if bits.len() < w {
        Err(FieldError::InsufficientBits { needed: w as usize, got: bits.len() as usize })
    } else {
        Ok(B::value_of(bits.take(w as int)))
    }
}

/// Reads the unsigned integer held by the `width` bits from `start`.
pub fn read_uint<B: BitBuffer>(bits: &B, start: usize, width: usize) -> (r: Result<u64, FieldError>)
    requires
        start <= bits.bits().len(),
        1 <= width <= 64,
    ensures
        uint_read::<B>(bits.bits().skip(start as int), width as nat) == match r {
            Ok(x) => Ok(x as nat),
            Err(e) => Err::<nat, FieldError>(e),
        },
{
    let len = bits.bit_len();
    let got = len - start;
    if got < width {
        return Err(FieldError::InsufficientBits { needed: width, got });
    }
    let x = bits.load_uint(start, width);
    assert(bits.bits().skip(start as int).take(width as int) =~= bits.bits().subrange(
        start as int,
        start + width,
    ));
    Ok(x)
}

/// A fresh buffer holding exactly the `width` bits of `x`.
pub fn write_uint<B: BitBuffer>(x: u64, width: usize) -> (r: B)
    requires
        1 <= width <= 64,
        (x as nat) < pow2(width as nat),
    ensures
        r.bits() == B::bits_of(x as nat, width as nat),
        r.bits().len() == width,
{
    proof {
        lemma_max_bits();
    }
    let mut b = B::empty();
    b.pad_zeros(width);
    b.store_uint(x);
    proof {
        lemma_small_mod(x as nat, pow2(width as nat));
        B::lemma_bits_of(x as nat, width as nat);
    }
    b
}

/// Parsing the encoding of an integer below `2^w`, followed by anything, reads
/// that integer back.
pub proof fn lemma_uint_round_trip<B: BitBuffer>(x: nat, w: nat, rest: Seq<bool>)
    requires
        x < pow2(w),
    ensures
        B::bits_of(x, w).len() == w,
        uint_read::<B>(B::bits_of(x, w) + rest, w) == Ok::<nat, FieldError>(x),
{
    B::lemma_bits_of(x, w);
    assert((B::bits_of(x, w) + rest).take(w as int) =~= B::bits_of(x, w));
}

impl<B: BitBuffer> BinaryField<B> for bool {
    open spec fn spec_parse(bits: Seq<bool>, o: Option<Options>) -> (
        Result<(bool, nat), FieldError>,
        Option<Options>,
    ) {
        if bits.len() < 1 {
            (Err(FieldError::InsufficientBits { needed: 1, got: bits.len() as usize }), o)
        } else {
            (Ok((bits[0], 1)), o)
        }
    }

    open spec fn spec_build(&self, o: Option<Options>) -> (Result<Seq<bool>, FieldError>, Option<Options>) {
        (Ok(seq![*self]), o)
    }

    open spec fn fits(&self, size: Option<usize>) -> bool {
        true
    }

    proof fn lemma_parse_facts(bits: Seq<bool>, o: Option<Options>) {
    }

    proof fn lemma_build_facts(&self, o: Option<Options>) {
    }

    proof fn lemma_round_trip(&self, o: Option<Options>, rest: Seq<bool>) {
    }

    fn parse(bits: &B, start: usize, opts: &mut Option<Options>) -> (r: Result<(bool, usize), FieldError>) {
        let len = bits.bit_len();
        if len - start < 1 {
            return Err(FieldError::InsufficientBits { needed: 1, got: len - start });
        }
        Ok((bits.bit_at(start), 1))
    }

    fn build(&self, opts: &mut Option<Options>) -> (r: Result<B, FieldError>) {
        proof {
            lemma_max_bits();
        }
        let mut b = B::empty();
        b.push_bit(*self);
        assert(b.bits() =~= seq![*self]);
        Ok(b)
    }
}

impl<B: BitBuffer> BinaryField<B> for u8 {
    open spec fn spec_parse(bits: Seq<bool>, o: Option<Options>) -> (
        Result<(u8, nat), FieldError>,
        Option<Options>,
    ) {
        (
            match uint_read::<B>(bits, 8) {
                Ok(x) => Ok(((x as u8) as u8, 8nat)),
                Err(e) => Err(e),
            },
            o,
        )
    }

    open spec fn spec_build(&self, o: Option<Options>) -> (Result<Seq<bool>, FieldError>, Option<Options>) {
        (Ok(B::bits_of((*self as u8) as nat, 8)), o)
    }

    open spec fn fits(&self, size: Option<usize>) -> bool {
        true
    }

    proof fn lemma_parse_facts(bits: Seq<bool>, o: Option<Options>) {
    }

    proof fn lemma_build_facts(&self, o: Option<Options>) {
    }

    proof fn lemma_round_trip(&self, o: Option<Options>, rest: Seq<bool>) {
        let v = *self;
        lemma2_to64();
        lemma_uint_round_trip::<B>((v as u8) as nat, 8, rest);
        assert(((v as u8) as u8) == v) by (bit_vector);
    }

    fn parse(bits: &B, start: usize, opts: &mut Option<Options>) -> (r: Result<(u8, usize), FieldError>) {
        let x = read_uint(bits, start, 8)?;
        Ok(((x as u8) as u8, 8))
    }

    fn build(&self, opts: &mut Option<Options>) -> (r: Result<B, FieldError>) {
        proof {
            lemma2_to64();
        }
        Ok(write_uint((*self as u8) as u64, 8))
    }
}

impl<B: BitBuffer> BinaryField<B> for u16 {
    open spec fn spec_parse(bits: Seq<bool>, o: Option<Options>) -> (
        Result<(u16, nat), FieldError>,
        Option<Options>,
    ) {
        (
            match uint_read::<B>(bits, 16) {
                Ok(x) => Ok(((x as u16) as u16, 16nat)),
                Err(e) => Err(e),
            },
            o,
        )
    }

    open spec fn spec_build(&self, o: Option<Options>) -> (Result<Seq<bool>, FieldError>, Option<Options>) {
        (Ok(B::bits_of((*self as u16) as nat, 16)), o)
    }

    open spec fn fits(&self, size: Option<usize>) -> bool {
        true
    }

    proof fn lemma_parse_facts(bits: Seq<bool>, o: Option<Options>) {
    }

    proof fn lemma_build_facts(&self, o: Option<Options>) {
    }

    proof fn lemma_round_trip(&self, o: Option<Options>, rest: Seq<bool>) {
        let v = *self;
        lemma2_to64();
        lemma_uint_round_trip::<B>((v as u16) as nat, 16, rest);
        assert(((v as u16) as u16) == v) by (bit_vector);
    }

    fn parse(bits: &B, start: usize, opts: &mut Option<Options>) -> (r: Result<(u16, usize), FieldError>) {
        let x = read_uint(bits, start, 16)?;
        Ok(((x as u16) as u16, 16))
    }

    fn build(&self, opts: &mut Option<Options>) -> (r: Result<B, FieldError>) {
        proof {
            lemma2_to64();
        }
        Ok(write_uint((*self as u16) as u64, 16))
    }
}

impl<B: BitBuffer> BinaryField<B> for u32 {
    open spec fn spec_parse(bits: Seq<bool>, o: Option<Options>) -> (
        Result<(u32, nat), FieldError>,
        Option<Options>,
    ) {
        (
            match uint_read::<B>(bits, 32) {
                Ok(x) => Ok(((x as u32) as u32, 32nat)),
                Err(e) => Err(e),
            },
            o,
        )
    }

    open spec fn spec_build(&self, o: Option<Options>) -> (Result<Seq<bool>, FieldError>, Option<Options>) {
        (Ok(B::bits_of((*self as u32) as nat, 32)), o)
    }

    open spec fn fits(&self, size: Option<usize>) -> bool {
        true
    }

    proof fn lemma_parse_facts(bits: Seq<bool>, o: Option<Options>) {
    }

    proof fn lemma_build_facts(&self, o: Option<Options>) {
    }

    proof fn lemma_round_trip(&self, o: Option<Options>, rest: Seq<bool>) {
        let v = *self;
        lemma2_to64();
        lemma_uint_round_trip::<B>((v as u32) as nat, 32, rest);
        assert(((v as u32) as u32) == v) by (bit_vector);
    }

    fn parse(bits: &B, start: usize, opts: &mut Option<Options>) -> (r: Result<(u32, usize), FieldError>) {
        let x = read_uint(bits, start, 32)?;
        Ok(((x as u32) as u32, 32))
    }

    fn build(&self, opts: &mut Option<Options>) -> (r: Result<B, FieldError>) {
        proof {
            lemma2_to64();
        }
        Ok(write_uint((*self as u32) as u64, 32))
    }
}

impl<B: BitBuffer> BinaryField<B> for u64 {
    open spec fn spec_parse(bits: Seq<bool>, o: Option<Options>) -> (
        Result<(u64, nat), FieldError>,
        Option<Options>,
    ) {
        (
            match uint_read::<B>(bits, 64) {
                Ok(x) => Ok(((x as u64) as u64, 64nat)),
                Err(e) => Err(e),
            },
            o,
        )
    }

    open spec fn spec_build(&self, o: Option<Options>) -> (Result<Seq<bool>, FieldError>, Option<Options>) {
        (Ok(B::bits_of((*self as u64) as nat, 64)), o)
    }

    open spec fn fits(&self, size: Option<usize>) -> bool {
        true
    }

    proof fn lemma_parse_facts(bits: Seq<bool>, o: Option<Options>) {
    }

    proof fn lemma_build_facts(&self, o: Option<Options>) {
    }

    proof fn lemma_round_trip(&self, o: Option<Options>, rest: Seq<bool>) {
        let v = *self;
        lemma2_to64();
        lemma_uint_round_trip::<B>((v as u64) as nat, 64, rest);
        assert(((v as u64) as u64) == v) by (bit_vector);
    }

    fn parse(bits: &B, start: usize, opts: &mut Option<Options>) -> (r: Result<(u64, usize), FieldError>) {
        let x = read_uint(bits, start, 64)?;
        Ok(((x as u64) as u64, 64))
    }

    fn build(&self, opts: &mut Option<Options>) -> (r: Result<B, FieldError>) {
        proof {
            lemma2_to64();
        }
        Ok(write_uint((*self as u64) as u64, 64))
    }
}

impl<B: BitBuffer> BinaryField<B> for i8 {
    open spec fn spec_parse(bits: Seq<bool>, o: Option<Options>) -> (
        Result<(i8, nat), FieldError>,
        Option<Options>,
    ) {
        (
            match uint_read::<B>(bits, 8) {
                Ok(x) => Ok(((x as u8) as i8, 8nat)),
                Err(e) => Err(e),
            },
            o,
        )
    }

    open spec fn spec_build(&self, o: Option<Options>) -> (Result<Seq<bool>, FieldError>, Option<Options>) {
        (Ok(B::bits_of((*self as u8) as nat, 8)), o)
    }

    open spec fn fits(&self, size: Option<usize>) -> bool {
        true
    }

    proof fn lemma_parse_facts(bits: Seq<bool>, o: Option<Options>) {
    }

    proof fn lemma_build_facts(&self, o: Option<Options>) {
    }

    proof fn lemma_round_trip(&self, o: Option<Options>, rest: Seq<bool>) {
        let v = *self;
        lemma2_to64();
        lemma_uint_round_trip::<B>((v as u8) as nat, 8, rest);
        assert(((v as u8) as i8) == v) by (bit_vector);
    }

    fn parse(bits: &B, start: usize, opts: &mut Option<Options>) -> (r: Result<(i8, usize), FieldError>) {
        let x = read_uint(bits, start, 8)?;
        Ok(((x as u8) as i8, 8))
    }

    fn build(&self, opts: &mut Option<Options>) -> (r: Result<B, FieldError>) {
        proof {
            lemma2_to64();
        }
        Ok(write_uint((*self as u8) as u64, 8))
    }
}

impl<B: BitBuffer> BinaryField<B> for i16 {
    open spec fn spec_parse(bits: Seq<bool>, o: Option<Options>) -> (
        Result<(i16, nat), FieldError>,
        Option<Options>,
    ) {
        (
            match uint_read::<B>(bits, 16) {
                Ok(x) => Ok(((x as u16) as i16, 16nat)),
                Err(e) => Err(e),
            },
            o,
        )
    }

    open spec fn spec_build(&self, o: Option<Options>) -> (Result<Seq<bool>, FieldError>, Option<Options>) {
        (Ok(B::bits_of((*self as u16) as nat, 16)), o)
    }

    open spec fn fits(&self, size: Option<usize>) -> bool {
        true
    }

    proof fn lemma_parse_facts(bits: Seq<bool>, o: Option<Options>) {
    }

    proof fn lemma_build_facts(&self, o: Option<Options>) {
    }

    proof fn lemma_round_trip(&self, o: Option<Options>, rest: Seq<bool>) {
        let v = *self;
        lemma2_to64();
        lemma_uint_round_trip::<B>((v as u16) as nat, 16, rest);
        assert(((v as u16) as i16) == v) by (bit_vector);
    }

    fn parse(bits: &B, start: usize, opts: &mut Option<Options>) -> (r: Result<(i16, usize), FieldError>) {
        let x = read_uint(bits, start, 16)?;
        Ok(((x as u16) as i16, 16))
    }

    fn build(&self, opts: &mut Option<Options>) -> (r: Result<B, FieldError>) {
        proof {
            lemma2_to64();
        }
        Ok(write_uint((*self as u16) as u64, 16))
    }
}

impl<B: BitBuffer> BinaryField<B> for i32 {
    open spec fn spec_parse(bits: Seq<bool>, o: Option<Options>) -> (
        Result<(i32, nat), FieldError>,
        Option<Options>,
    ) {
        (
            match uint_read::<B>(bits, 32) {
                Ok(x) => Ok(((x as u32) as i32, 32nat)),
                Err(e) => Err(e),
            },
            o,
        )
    }

    open spec fn spec_build(&self, o: Option<Options>) -> (Result<Seq<bool>, FieldError>, Option<Options>) {
        (Ok(B::bits_of((*self as u32) as nat, 32)), o)
    }

    open spec fn fits(&self, size: Option<usize>) -> bool {
        true
    }

    proof fn lemma_parse_facts(bits: Seq<bool>, o: Option<Options>) {
    }

    proof fn lemma_build_facts(&self, o: Option<Options>) {
    }

    proof fn lemma_round_trip(&self, o: Option<Options>, rest: Seq<bool>) {
        let v = *self;
        lemma2_to64();
        lemma_uint_round_trip::<B>((v as u32) as nat, 32, rest);
        assert(((v as u32) as i32) == v) by (bit_vector);
    }

    fn parse(bits: &B, start: usize, opts: &mut Option<Options>) -> (r: Result<(i32, usize), FieldError>) {
        let x = read_uint(bits, start, 32)?;
        Ok(((x as u32) as i32, 32))
    }

    fn build(&self, opts: &mut Option<Options>) -> (r: Result<B, FieldError>) {
        proof {
            lemma2_to64();
        }
        Ok(write_uint((*self as u32) as u64, 32))
    }
}

impl<B: BitBuffer> BinaryField<B> for i64 {
    open spec fn spec_parse(bits: Seq<bool>, o: Option<Options>) -> (
        Result<(i64, nat), FieldError>,
        Option<Options>,
    ) {
        (
            match uint_read::<B>(bits, 64) {
                Ok(x) => Ok(((x as u64) as i64, 64nat)),
                Err(e) => Err(e),
            },
            o,
        )
    }

    open spec fn spec_build(&self, o: Option<Options>) -> (Result<Seq<bool>, FieldError>, Option<Options>) {
        (Ok(B::bits_of((*self as u64) as nat, 64)), o)
    }

    open spec fn fits(&self, size: Option<usize>) -> bool {
        true
    }

    proof fn lemma_parse_facts(bits: Seq<bool>, o: Option<Options>) {
    }

    proof fn lemma_build_facts(&self, o: Option<Options>) {
    }

    proof fn lemma_round_trip(&self, o: Option<Options>, rest: Seq<bool>) {
        let v = *self;
        lemma2_to64();
        lemma_uint_round_trip::<B>((v as u64) as nat, 64, rest);
        assert(((v as u64) as i64) == v) by (bit_vector);
    }

    fn parse(bits: &B, start: usize, opts: &mut Option<Options>) -> (r: Result<(i64, usize), FieldError>) {
        let x = read_uint(bits, start, 64)?;
        Ok(((x as u64) as i64, 64))
    }

    fn build(&self, opts: &mut Option<Options>) -> (r: Result<B, FieldError>) {
        proof {
            lemma2_to64();
        }
        Ok(write_uint((*self as u64) as u64, 64))
    }
}

} // verus!
