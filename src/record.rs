//! The per-field protocol that a record codec follows: each field gets a fresh
//! descriptor, is parsed or built by its own codec, and is then padded to its
//! own boundary when it declares one and no countdown. A record's codec runs
//! these steps over its fields in declaration order, advancing its offset by
//! each parsed length and concatenating each built buffer.

use crate::bits::{BitBuffer, MAX_BITS};
use crate::field::{built, parsed, BinaryField};
use crate::options::{aligned_up, pad_amount, size_of, FieldError, Options};
use crate::sequence::zero_fill;
use vstd::prelude::*;

verus! {

/// The fresh descriptor of one field invocation.
pub open spec fn field_options(name: String, size: usize, align: usize, sub_align: u8) -> Option<
    Options,
> {
    Some(Options { name, size, align, sub_align })
}

/// The boundary a field pads to after its own codec: its `align`, unless it
/// configures a countdown, in which case none.
pub open spec fn trailing_align(align: usize, sub_align: u8) -> nat {
    if sub_align == 0 {
        align as nat
    } else {
        0
    }
}

/// What parsing one field from the front of `bits` gives: the model of its value
/// and the bits consumed, trailing padding included.
pub open spec fn spec_parse_field<B: BitBuffer, T: BinaryField<B>>(
    bits: Seq<bool>,
    name: String,
    size: usize,
    align: usize,
    sub_align: u8,
) -> Result<(T::V, nat), FieldError> {
    match T::spec_parse(bits, field_options(name, size, align, sub_align)).0 {
        Err(e) => Err(e),
        Ok((v, n)) => {
            let m = aligned_up(n, trailing_align(align, sub_align));
            if m > bits.len() {
                Err(
                    FieldError::InsufficientBits {
                        needed: (m - n) as usize,
                        got: (bits.len() - n) as usize,
                    },
                )
            } else {
                Ok((v, m))
            }
        },
    }
}

/// What building one field gives: its codec's bits with trailing padding.
pub open spec fn spec_build_field<B: BitBuffer, T: BinaryField<B>>(
    v: T,
    name: String,
    size: usize,
    align: usize,
    sub_align: u8,
) -> Result<Seq<bool>, FieldError> {
    match v.spec_build(field_options(name, size, align, sub_align)).0 {
        Err(e) => Err(e),
        Ok(b) => {
            let n = aligned_up(b.len(), trailing_align(align, sub_align));
            if n > MAX_BITS {
                Err(FieldError::CapacityExceeded)
            } else {
                Ok(zero_fill(b, n))
            }
        },
    }
}

/// Parses one field of a record from index `start` of `bits`.
pub fn parse_field<B: BitBuffer, T: BinaryField<B>>(
    bits: &B,
    start: usize,
    name: String,
    size: usize,
    align: usize,
    sub_align: u8,
) -> (r: Result<(T, usize), FieldError>)
    requires
        start <= bits.bits().len(),
    ensures
        spec_parse_field::<B, T>(bits.bits().skip(start as int), name, size, align, sub_align)
            == parsed(r),
{
    let ghost o = field_options(name, size, align, sub_align);
    let mut opts = Some(Options::new(name, size, align, sub_align));
    proof {
        T::lemma_parse_facts(bits.bits().skip(start as int), o);
    }
    let (v, n) = T::parse(bits, start, &mut opts)?;
    let t = if sub_align == 0 {
        align
    } else {
        0
    };
    let p = pad_amount(n, t);
    let len = bits.bit_len();
    if p > len - start - n {
        return Err(FieldError::InsufficientBits { needed: p, got: len - start - n });
    }
    Ok((v, n + p))
}

/// Builds one field of a record into a fresh buffer.
pub fn build_field<B: BitBuffer, T: BinaryField<B>>(
    v: &T,
    name: String,
    size: usize,
    align: usize,
    sub_align: u8,
) -> (r: Result<B, FieldError>)
    ensures
        spec_build_field::<B, T>(*v, name, size, align, sub_align) == built(r),
{
    let mut opts = Some(Options::new(name, size, align, sub_align));
    let mut b = v.build(&mut opts)?;
    let t = if sub_align == 0 {
        align
    } else {
        0
    };
    let cur = b.bit_len();
    let p = pad_amount(cur, t);
    if p > MAX_BITS - cur {
        return Err(FieldError::CapacityExceeded);
    }
    b.pad_zeros(cur + p);
    Ok(b)
}

/// For every field value whose configuration suits it, parsing what a
/// successful field build wrote, followed by anything, gives the value back and
/// consumes exactly the bits written, trailing padding included.
pub proof fn field_round_trip<B: BitBuffer, T: BinaryField<B>>(
    v: T,
    name: String,
    size: usize,
    align: usize,
    sub_align: u8,
    rest: Seq<bool>,
)
    requires
        v.fits(Some(size)),
        spec_build_field::<B, T>(v, name, size, align, sub_align) is Ok,
    ensures
        spec_parse_field::<B, T>(
            spec_build_field::<B, T>(v, name, size, align, sub_align)->Ok_0 + rest,
            name,
            size,
            align,
            sub_align,
        ) == Ok::<(T::V, nat), FieldError>(
            (v.deep_view(), spec_build_field::<B, T>(v, name, size, align, sub_align)->Ok_0.len()),
        ),
{
    let o = field_options(name, size, align, sub_align);
    assert(size_of(o) == Some(size));
    let b = v.spec_build(o).0->Ok_0;
    let n = aligned_up(b.len(), trailing_align(align, sub_align));
    let out = zero_fill(b, n);
    let x = Seq::new((n - b.len()) as nat, |i: int| false) + rest;
    assert(out + rest =~= b + x);
    v.lemma_round_trip(o, x);
}

} // verus!
