//! Repetition: parsing and building a run of elements of one codec, padding
//! the running offset after each element, either to a fixed boundary or as the
//! descriptor's countdown decides. Both composite codecs are built on it.

use crate::bits::{BitBuffer, MAX_BITS};
use crate::field::{built, parsed, BinaryField};
use crate::options::{aligned_up, pad_amount, size_of, FieldError, Options};
use vstd::prelude::*;

verus! {

/// How a run of elements is padded.
#[derive(Debug, Clone, Copy, PartialEq, Eq)]
pub enum Pad {
    /// After every element, up to a multiple of the boundary (zero: no padding).
    Every(usize),
    /// After an element only when the descriptor's countdown answers a boundary.
    Countdown,
}

/// What one alignment query on an optional descriptor answers, and what it leaves.
pub open spec fn query_align(o: Option<Options>) -> (Option<usize>, Option<Options>) {
    match o {
        Some(x) => (x.spec_get_align().0, Some(x.spec_get_align().1)),
        None => (None, None),
    }
}

/// The boundary to pad to after an element (zero: none), and the descriptor left.
pub open spec fn pad_step(mode: Pad, o: Option<Options>) -> (nat, Option<Options>) {
    match mode {
        Pad::Every(a) => (a as nat, o),
        Pad::Countdown => (
            match query_align(o).0 {
                Some(a) => a as nat,
                None => 0,
            },
            query_align(o).1,
        ),
    }
}

/// `s` followed by zero bits up to length `n`.
pub open spec fn zero_fill(s: Seq<bool>, n: nat) -> Seq<bool> {
    s + Seq::new((n - s.len()) as nat, |i: int| false)
}

/// A run parse outcome with `pre` put in front of its values.
pub open spec fn prepend<V>(
    pre: Seq<V>,
    r: (Result<(Seq<V>, nat), FieldError>, Option<Options>),
) -> (Result<(Seq<V>, nat), FieldError>, Option<Options>) {
    (
        match r.0 {
            Ok((vs, m)) => Ok((pre + vs, m)),
            Err(e) => Err(e),
        },
        r.1,
    )
}

/// Parsing `k` elements of `bits` from offset `off`: the models of the values
/// and the offset reached, and the descriptor left.
pub open spec fn seq_parse<B: BitBuffer, T: BinaryField<B>>(
    bits: Seq<bool>,
    o: Option<Options>,
    k: nat,
    off: nat,
    mode: Pad,
) -> (Result<(Seq<T::V>, nat), FieldError>, Option<Options>)
    decreases k,
{
    if k == 0 {
        (Ok((Seq::empty(), off)), o)
    } else {
        let (r, o1) = T::spec_parse(bits.skip(off as int), o);
        match r {
            Err(e) => (Err(e), o1),
            Ok((v, n)) => {
                let (a, o2) = pad_step(mode, o1);
                let end = off + n;
                let p = (aligned_up(end, a) - end) as nat;
                if end + p > bits.len() {
                    (
                        Err(
                            FieldError::InsufficientBits {
                                needed: p as usize,
                                got: (bits.len() - end) as usize,
                            },
                        ),
                        o2,
                    )
                } else {
                    prepend(seq![v], seq_parse::<B, T>(bits, o2, (k - 1) as nat, end + p, mode))
                }
            },
        }
    }
}

/// Building `items` after the bits `done`: the whole bit sequence, and the
/// descriptor left.
pub open spec fn seq_build<B: BitBuffer, T: BinaryField<B>>(
    items: Seq<T>,
    o: Option<Options>,
    mode: Pad,
    done: Seq<bool>,
) -> (Result<Seq<bool>, FieldError>, Option<Options>)
    decreases items.len(),
{
    if items.len() == 0 {
        (Ok(done), o)
    } else {
        let (r, o1) = items[0].spec_build(o);
        match r {
            Err(e) => (Err(e), o1),
            Ok(b) => {
                let (a, o2) = pad_step(mode, o1);
                let d = done + b;
                let n = aligned_up(d.len(), a);
                if n > MAX_BITS {
                    (Err(FieldError::CapacityExceeded), o2)
                } else {
                    seq_build::<B, T>(items.drop_first(), o2, mode, zero_fill(d, n))
                }
            },
        }
    }
}

/// Pads by `mode`: answers the boundary (zero: none), querying the countdown
/// where the mode says so.
pub fn pad_query(mode: Pad, opts: &mut Option<Options>) -> (r: usize)
    ensures
        (r as nat, *final(opts)) == pad_step(mode, *old(opts)),
{
    match mode {
        Pad::Every(a) => a,
        Pad::Countdown => {
            let q = match opts {
                Some(o) => o.get_align(),
                None => None,
            };
            match q {
                Some(a) => a,
                None => 0,
            }
        },
    }
}

proof fn lemma_prepend_empty<V>(r: (Result<(Seq<V>, nat), FieldError>, Option<Options>))
    ensures
        prepend(Seq::<V>::empty(), r) == r,
{
    match r.0 {
        Ok((vs, m)) => {
            assert(Seq::<V>::empty() + vs =~= vs);
        },
        Err(e) => {},
    }
}

proof fn lemma_prepend_push<V>(
    pre: Seq<V>,
    v: V,
    r: (Result<(Seq<V>, nat), FieldError>, Option<Options>),
)
    ensures
        prepend(pre, prepend(seq![v], r)) == prepend(pre.push(v), r),
{
    match r.0 {
        Ok((vs, m)) => {
            assert(pre + (seq![v] + vs) =~= pre.push(v) + vs);
        },
        Err(e) => {},
    }
}

/// Parses `count` elements from index `start` of `bits`, padding by `mode`.
pub fn parse_seq<B: BitBuffer, T: BinaryField<B>>(
    bits: &B,
    start: usize,
    opts: &mut Option<Options>,
    count: usize,
    mode: Pad,
) -> (r: Result<(Vec<T>, usize), FieldError>)
    requires
        start <= bits.bits().len(),
    ensures
        seq_parse::<B, T>(bits.bits().skip(start as int), *old(opts), count as nat, 0, mode) == (
            parsed(r),
            *final(opts),
        ),
        r is Ok ==> r->Ok_0.0.len() == count,
{
    let ghost s = bits.bits().skip(start as int);
    let ghost o0 = *opts;
    let len = bits.bit_len();
    let mut vec: Vec<T> = Vec::new();
    let mut off: usize = 0;
    let mut i: usize = 0;
    proof {
        assert(vec.deep_view() =~= Seq::<T::V>::empty());
        lemma_prepend_empty(seq_parse::<B, T>(s, o0, count as nat, 0, mode));
    }
    while i < count
        invariant
            len == bits.bits().len(),
            s == bits.bits().skip(start as int),
            o0 == *old(opts),
            start + off <= len,
            i <= count,
            vec.len() == i,
            seq_parse::<B, T>(s, o0, count as nat, 0, mode) == prepend(
                vec.deep_view(),
                seq_parse::<B, T>(s, *opts, (count - i) as nat, off as nat, mode),
            ),
        decreases count - i,
    {
        let ghost oi = *opts;
        proof {
            assert(s.skip(off as int) =~= bits.bits().skip(start + off));
            T::lemma_parse_facts(s.skip(off as int), oi);
        }
        let res = T::parse(bits, start + off, opts);
        match res {
            Err(e) => {
                proof {
                    assert(seq_parse::<B, T>(s, oi, (count - i) as nat, off as nat, mode) == (
                        Err::<(Seq<T::V>, nat), FieldError>(e),
                        *opts,
                    ));
                }
                return Err(e);
            },
            Ok((item, n)) => {
                let end = off + n;
                let a = pad_query(mode, opts);
                let p = pad_amount(end, a);
                if p > len - start - end {
                    proof {
                        assert(seq_parse::<B, T>(s, oi, (count - i) as nat, off as nat, mode).0
                            is Err);
                    }
                    return Err(FieldError::InsufficientBits { needed: p, got: len - start - end });
                }
                off = end + p;
                let ghost pre = vec.deep_view();
                vec.push(item);
                proof {
                    assert(vec.deep_view() =~= pre.push(item.deep_view()));
                    lemma_prepend_push(
                        pre,
                        item.deep_view(),
                        seq_parse::<B, T>(s, *opts, (count - i - 1) as nat, off as nat, mode),
                    );
                }
                i = i + 1;
            },
        }
    }
    proof {
        assert(vec.deep_view() + Seq::<T::V>::empty() =~= vec.deep_view());
    }
    Ok((vec, off))
}

/// Builds `items` into a fresh buffer, padding by `mode` after each element.
pub fn build_seq<B: BitBuffer, T: BinaryField<B>>(items: &[T], opts: &mut Option<Options>, mode: Pad) -> (r:
    Result<B, FieldError>)
    ensures
        seq_build::<B, T>(items@, *old(opts), mode, Seq::empty()) == (built(r), *final(opts)),
{
    let ghost o0 = *opts;
    let mut bv = B::empty();
    let mut i: usize = 0;
    assert(items@.skip(0) =~= items@);
    while i < items.len()
        invariant
            o0 == *old(opts),
            i <= items@.len(),
            seq_build::<B, T>(items@, o0, mode, Seq::empty()) == seq_build::<B, T>(
                items@.skip(i as int),
                *opts,
                mode,
                bv.bits(),
            ),
        decreases items@.len() - i,
    {
        let ghost rest = items@.skip(i as int);
        assert(rest[0] == items@[i as int]);
        assert(rest.drop_first() =~= items@.skip(i + 1));
        let b = items[i].build(opts)?;
        let a = pad_query(mode, opts);
        let cur = bv.bit_len();
        let bl = b.bit_len();
        if bl > MAX_BITS - cur {
            return Err(FieldError::CapacityExceeded);
        }
        bv.append_bits(&b);
        let p = pad_amount(cur + bl, a);
        if p > MAX_BITS - (cur + bl) {
            return Err(FieldError::CapacityExceeded);
        }
        bv.pad_zeros(cur + bl + p);
        i = i + 1;
    }
    Ok(bv)
}

/// A run parse consumes no more than it is given, yields one value per
/// element, and leaves the element count.
pub proof fn lemma_seq_parse_facts<B: BitBuffer, T: BinaryField<B>>(
    bits: Seq<bool>,
    o: Option<Options>,
    k: nat,
    off: nat,
    mode: Pad,
)
    requires
        off <= bits.len(),
    ensures
        size_of(seq_parse::<B, T>(bits, o, k, off, mode).1) == size_of(o),
        seq_parse::<B, T>(bits, o, k, off, mode).0 is Ok ==> {
            &&& seq_parse::<B, T>(bits, o, k, off, mode).0->Ok_0.1 <= bits.len()
            &&& seq_parse::<B, T>(bits, o, k, off, mode).0->Ok_0.0.len() == k
        },
    decreases k,
{
    if k > 0 {
        T::lemma_parse_facts(bits.skip(off as int), o);
        let (r, o1) = T::spec_parse(bits.skip(off as int), o);
        match r {
            Err(e) => {},
            Ok((v, n)) => {
                let (a, o2) = pad_step(mode, o1);
                let end = off + n;
                let p = (aligned_up(end, a) - end) as nat;
                if end + p <= bits.len() {
                    lemma_seq_parse_facts::<B, T>(bits, o2, (k - 1) as nat, end + p, mode);
                }
            },
        }
    }
}

/// A run build leaves the element count.
pub proof fn lemma_seq_build_facts<B: BitBuffer, T: BinaryField<B>>(
    items: Seq<T>,
    o: Option<Options>,
    mode: Pad,
    done: Seq<bool>,
)
    ensures
        size_of(seq_build::<B, T>(items, o, mode, done).1) == size_of(o),
    decreases items.len(),
{
    if items.len() > 0 {
        items[0].lemma_build_facts(o);
        let (r, o1) = items[0].spec_build(o);
        match r {
            Err(e) => {},
            Ok(b) => {
                let (a, o2) = pad_step(mode, o1);
                let d = done + b;
                let n = aligned_up(d.len(), a);
                if n <= MAX_BITS {
                    lemma_seq_build_facts::<B, T>(items.drop_first(), o2, mode, zero_fill(d, n));
                }
            },
        }
    }
}

/// Parsing what a successful run build wrote after `done`, followed by
/// anything, from the end of `done` gives the models of the elements back and
/// reaches the end of what was written.
pub proof fn lemma_seq_round_trip<B: BitBuffer, T: BinaryField<B>>(
    items: Seq<T>,
    o: Option<Options>,
    mode: Pad,
    done: Seq<bool>,
    rest: Seq<bool>,
)
    requires
        forall|i: int| 0 <= i < items.len() ==> #[trigger] items[i].fits(size_of(o)),
        seq_build::<B, T>(items, o, mode, done).0 is Ok,
    ensures
        ({
            let out = seq_build::<B, T>(items, o, mode, done).0->Ok_0;
            &&& done.len() <= out.len()
            &&& out.take(done.len() as int) == done
            &&& seq_parse::<B, T>(out + rest, o, items.len(), done.len(), mode) == (
                Ok::<(Seq<T::V>, nat), FieldError>(
                    (items.map_values(|t: T| t.deep_view()), out.len()),
                ),
                seq_build::<B, T>(items, o, mode, done).1,
            )
        }),
    decreases items.len(),
{
    if items.len() == 0 {
        assert(done.take(done.len() as int) =~= done);
        assert(items.map_values(|t: T| t.deep_view()) =~= Seq::<T::V>::empty());
    } else {
        items[0].lemma_build_facts(o);
        let (r, o1) = items[0].spec_build(o);
        let b = r->Ok_0;
        let (a, o2) = pad_step(mode, o1);
        let d = done + b;
        let n = aligned_up(d.len(), a);
        let nd = zero_fill(d, n);
        let tail = items.drop_first();
        assert forall|i: int| 0 <= i < tail.len() implies #[trigger] tail[i].fits(size_of(o2)) by {
            assert(tail[i] == items[i + 1]);
        }
        lemma_seq_round_trip::<B, T>(tail, o2, mode, nd, rest);
        let out = seq_build::<B, T>(items, o, mode, done).0->Ok_0;
        let whole = out + rest;
        assert(nd.len() == n);
        assert(out.take(done.len() as int) =~= done) by {
            assert forall|i: int| 0 <= i < done.len() implies out[i] == done[i] by {
                assert(out.take(n as int)[i] == nd[i]);
            }
        }
        let x = whole.skip(d.len() as int);
        assert(whole.skip(done.len() as int) =~= b + x) by {
            assert forall|i: int| 0 <= i < b.len() implies whole[done.len() + i] == b[i] by {
                assert(out.take(n as int)[done.len() + i] == nd[done.len() + i]);
            }
        }
        items[0].lemma_round_trip(o, x);
        assert(seq![items[0].deep_view()] + tail.map_values(|t: T| t.deep_view())
            =~= items.map_values(|t: T| t.deep_view()));
    }
}

} // verus!
