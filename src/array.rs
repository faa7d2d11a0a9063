//! The composite codecs: the fixed array, padded after every element when the
//! descriptor sets a boundary, and the runtime-length list, whose count comes
//! from the descriptor and which pads only where the countdown fires.

use crate::bits::BitBuffer;
use crate::field::BinaryField;
use crate::options::{FieldError, Options};
use crate::sequence::{
    build_seq, lemma_seq_build_facts, lemma_seq_parse_facts, lemma_seq_round_trip, parse_seq,
    seq_build, seq_parse, Pad,
};
use vstd::prelude::*;

verus! {

/// The boundary a descriptor sets for fixed arrays; zero without a descriptor.
pub open spec fn align_of(o: Option<Options>) -> usize {
    match o {
        Some(x) => x.align,
        None => 0,
    }
}

impl<B: BitBuffer, T: BinaryField<B> + Default + Copy, const N: usize> BinaryField<B> for [T; N] {
    open spec fn spec_parse(bits: Seq<bool>, o: Option<Options>) -> (
        Result<(Seq<T::V>, nat), FieldError>,
        Option<Options>,
    ) {
        seq_parse::<B, T>(bits, o, N as nat, 0, Pad::Every(align_of(o)))
    }

    open spec fn spec_build(&self, o: Option<Options>) -> (Result<Seq<bool>, FieldError>, Option<Options>) {
        seq_build::<B, T>(self@, o, Pad::Every(align_of(o)), Seq::empty())
    }

    open spec fn fits(&self, size: Option<usize>) -> bool {
        forall|i: int| 0 <= i < N ==> #[trigger] self@[i].fits(size)
    }

    proof fn lemma_parse_facts(bits: Seq<bool>, o: Option<Options>) {
        lemma_seq_parse_facts::<B, T>(bits, o, N as nat, 0, Pad::Every(align_of(o)));
    }

    proof fn lemma_build_facts(&self, o: Option<Options>) {
        lemma_seq_build_facts::<B, T>(self@, o, Pad::Every(align_of(o)), Seq::empty());
    }

    proof fn lemma_round_trip(&self, o: Option<Options>, rest: Seq<bool>) {
        lemma_seq_round_trip::<B, T>(self@, o, Pad::Every(align_of(o)), Seq::empty(), rest);
        assert(self.deep_view() =~= self@.map_values(|t: T| t.deep_view()));
    }

    fn parse(bits: &B, start: usize, opts: &mut Option<Options>) -> (r: Result<([T; N], usize), FieldError>) {
        let a = match opts {
            Some(o) => o.align,
            None => 0,
        };
        let (items, off) = parse_seq::<B, T>(bits, start, opts, N, Pad::Every(a))?;
        let mut arr: [T; N] = [T::default(); N];
        let mut i: usize = 0;
        while i < N
            invariant
                items.len() == N,
                i <= N,
                forall|j: int| 0 <= j < i ==> arr@[j] == items@[j],
            decreases N - i,
        {
            arr[i] = items[i];
            i = i + 1;
        }
        assert(arr.deep_view() =~= items.deep_view());
        Ok((arr, off))
    }

    fn build(&self, opts: &mut Option<Options>) -> (r: Result<B, FieldError>) {
        let a = match opts {
            Some(o) => o.align,
            None => 0,
        };
        build_seq::<B, T>(self.as_slice(), opts, Pad::Every(a))
    }
}

impl<B: BitBuffer, T: BinaryField<B>> BinaryField<B> for Vec<T> {
    open spec fn spec_parse(bits: Seq<bool>, o: Option<Options>) -> (
        Result<(Seq<T::V>, nat), FieldError>,
        Option<Options>,
    ) {
        match o {
            None => (Err(FieldError::MissingOptions), o),
            Some(x) => if x.size == 0 {
                (Err(FieldError::MissingSize), o)
            } else {
                seq_parse::<B, T>(bits, o, x.size as nat, 0, Pad::Countdown)
            },
        }
    }

    open spec fn spec_build(&self, o: Option<Options>) -> (Result<Seq<bool>, FieldError>, Option<Options>) {
        match o {
            None => (Err(FieldError::MissingOptions), o),
            Some(x) => if x.size == 0 {
                (Err(FieldError::MissingSize), o)
            } else {
                seq_build::<B, T>(self@, o, Pad::Countdown, Seq::empty())
            },
        }
    }

    open spec fn fits(&self, size: Option<usize>) -> bool {
        &&& size == Some(self.len())
        &&& self@.len() > 0
        &&& forall|i: int| 0 <= i < self@.len() ==> #[trigger] self@[i].fits(size)
    }

    proof fn lemma_parse_facts(bits: Seq<bool>, o: Option<Options>) {
        if let Some(x) = o {
            lemma_seq_parse_facts::<B, T>(bits, o, x.size as nat, 0, Pad::Countdown);
        }
    }

    proof fn lemma_build_facts(&self, o: Option<Options>) {
        lemma_seq_build_facts::<B, T>(self@, o, Pad::Countdown, Seq::empty());
    }

    proof fn lemma_round_trip(&self, o: Option<Options>, rest: Seq<bool>) {
        lemma_seq_round_trip::<B, T>(self@, o, Pad::Countdown, Seq::empty(), rest);
        assert(self.deep_view() =~= self@.map_values(|t: T| t.deep_view()));
    }

    fn parse(bits: &B, start: usize, opts: &mut Option<Options>) -> (r: Result<(Vec<T>, usize), FieldError>) {
        let size = match opts {
            Some(o) => o.size,
            None => {
                return Err(FieldError::MissingOptions);
            },
        };
        if size == 0 {
            return Err(FieldError::MissingSize);
        }
        parse_seq::<B, T>(bits, start, opts, size, Pad::Countdown)
    }

    fn build(&self, opts: &mut Option<Options>) -> (r: Result<B, FieldError>) {
        let size = match opts {
            Some(o) => o.size,
            None => {
                return Err(FieldError::MissingOptions);
            },
        };
        if size == 0 {
            return Err(FieldError::MissingSize);
        }
        build_seq::<B, T>(self.as_slice(), opts, Pad::Countdown)
    }
}

} // verus!
