//! The codec contract: every encodable type parses itself from the front of a
//! bit sequence and builds itself into a fresh one, under a shared descriptor.

use crate::bits::BitBuffer;
use crate::options::{size_of, FieldError, Options};
use vstd::prelude::*;

verus! {

/// A parse outcome with its value read as its model and its consumed length
/// as a natural number.
pub open spec fn parsed<T: DeepView>(r: Result<(T, usize), FieldError>) -> Result<(T::V, nat), FieldError> {
    match r {
        Ok((v, n)) => Ok((v.deep_view(), n as nat)),
        Err(e) => Err(e),
    }
}

/// A build outcome with its buffer read as its bits.
pub open spec fn built<B: BitBuffer>(r: Result<B, FieldError>) -> Result<Seq<bool>, FieldError> {
    match r {
        Ok(b) => Ok(b.bits()),
        Err(e) => Err(e),
    }
}

/// A type that converts to and from bits under the ordering of `B`.
pub trait BinaryField<B: BitBuffer>: DeepView + Sized {
    /// What parsing the front of `bits` under descriptor `o` gives (the model of
    /// the value and the number of bits consumed), and the descriptor as the
    /// parse leaves it.
    spec fn spec_parse(bits: Seq<bool>, o: Option<Options>) -> (
        Result<(Self::V, nat), FieldError>,
        Option<Options>,
    );

    /// What building this value under descriptor `o` gives, and the descriptor
    /// as the build leaves it.
    spec fn spec_build(&self, o: Option<Options>) -> (Result<Seq<bool>, FieldError>, Option<Options>);

    /// Whether a descriptor carrying element count `size` suits this value.
    spec fn fits(&self, size: Option<usize>) -> bool;

    /// A parse consumes no more than it is given, and leaves the element count.
    proof fn lemma_parse_facts(bits: Seq<bool>, o: Option<Options>)
        ensures
            size_of(Self::spec_parse(bits, o).1) == size_of(o),
            Self::spec_parse(bits, o).0 is Ok ==> Self::spec_parse(bits, o).0->Ok_0.1 <= bits.len(),
    ;

    /// A build leaves the element count.
    proof fn lemma_build_facts(&self, o: Option<Options>)
        ensures
            size_of(self.spec_build(o).1) == size_of(o),
    ;

    /// Parsing what a successful build wrote, followed by anything, gives the
    /// value back, consumes exactly the bits written and leaves the descriptor as
    /// the build did.
    proof fn lemma_round_trip(&self, o: Option<Options>, rest: Seq<bool>)
        requires
            self.fits(size_of(o)),
            self.spec_build(o).0 is Ok,
        ensures
            Self::spec_parse(self.spec_build(o).0->Ok_0 + rest, o) == (
                Ok::<(Self::V, nat), FieldError>((self.deep_view(), self.spec_build(o).0->Ok_0.len())),
                self.spec_build(o).1,
            ),
    ;

    /// Reads a value from the bits of `bits` from index `start` on.
    fn parse(bits: &B, start: usize, opts: &mut Option<Options>) -> (r: Result<(Self, usize), FieldError>)
        requires
            start <= bits.bits().len(),
        ensures
            Self::spec_parse(bits.bits().skip(start as int), *old(opts)) == (parsed(r), *final(opts)),
    ;

    /// Writes this value into a fresh buffer.
    fn build(&self, opts: &mut Option<Options>) -> (r: Result<B, FieldError>)
        ensures
            self.spec_build(*old(opts)) == (built(r), *final(opts)),
    ;
}

} // verus!
