//! Laws that relate the codecs' operations to each other.

use crate::bits::{BitBuffer, MAX_BITS};
use crate::field::BinaryField;
use crate::options::{aligned_up, size_of, FieldError, Options};
use crate::sequence::{pad_step, seq_build, seq_parse, zero_fill, Pad};
use vstd::arithmetic::div_mod::{lemma_fundamental_div_mod, lemma_mod_multiples_basic};
use vstd::prelude::*;

verus! {

/// For every value and every descriptor that suits it, parsing what a
/// successful build wrote gives the value back, consumes exactly the bits that
/// were written, and leaves the descriptor as the build left it.
pub proof fn round_trip<B: BitBuffer, T: BinaryField<B>>(v: T, o: Option<Options>)
    requires
        v.fits(size_of(o)),
        v.spec_build(o).0 is Ok,
    ensures
        T::spec_parse(v.spec_build(o).0->Ok_0, o) == (
            Ok::<(T::V, nat), FieldError>((v.deep_view(), v.spec_build(o).0->Ok_0.len())),
            v.spec_build(o).1,
        ),
{
    let b = v.spec_build(o).0->Ok_0;
    v.lemma_round_trip(o, Seq::empty());
    assert(b + Seq::<bool>::empty() =~= b);
}

/// Every primitive builds into exactly its width, whatever its value and the
/// descriptor, and leaves the descriptor untouched.
pub proof fn build_widths<B: BitBuffer>(
    o: Option<Options>,
    b: bool,
    u1: u8,
    u2: u16,
    u4: u32,
    u8v: u64,
    i1: i8,
    i2: i16,
    i4: i32,
    i8v: i64,
)
    ensures
        BinaryField::<B>::spec_build(&b, o) == (Ok::<Seq<bool>, FieldError>(seq![b]), o),
        BinaryField::<B>::spec_build(&u1, o).0 is Ok && BinaryField::<B>::spec_build(&u1, o).0->Ok_0.len() == 8,
        BinaryField::<B>::spec_build(&u2, o).0 is Ok && BinaryField::<B>::spec_build(&u2, o).0->Ok_0.len() == 16,
        BinaryField::<B>::spec_build(&u4, o).0 is Ok && BinaryField::<B>::spec_build(&u4, o).0->Ok_0.len() == 32,
        BinaryField::<B>::spec_build(&u8v, o).0 is Ok && BinaryField::<B>::spec_build(&u8v, o).0->Ok_0.len() == 64,
        BinaryField::<B>::spec_build(&i1, o).0 is Ok && BinaryField::<B>::spec_build(&i1, o).0->Ok_0.len() == 8,
        BinaryField::<B>::spec_build(&i2, o).0 is Ok && BinaryField::<B>::spec_build(&i2, o).0->Ok_0.len() == 16,
        BinaryField::<B>::spec_build(&i4, o).0 is Ok && BinaryField::<B>::spec_build(&i4, o).0->Ok_0.len() == 32,
        BinaryField::<B>::spec_build(&i8v, o).0 is Ok && BinaryField::<B>::spec_build(&i8v, o).0->Ok_0.len() == 64,
{
    vstd::arithmetic::power2::lemma2_to64();
    B::lemma_bits_of(u1 as nat, 8);
    B::lemma_bits_of(u2 as nat, 16);
    B::lemma_bits_of(u4 as nat, 32);
    B::lemma_bits_of(u8v as nat, 64);
    B::lemma_bits_of((i1 as u8) as nat, 8);
    B::lemma_bits_of((i2 as u16) as nat, 16);
    B::lemma_bits_of((i4 as u32) as nat, 32);
    B::lemma_bits_of((i8v as u64) as nat, 64);
}

proof fn lemma_aligned_up(x: nat, a: nat)
    requires
        a > 0,
    ensures
        aligned_up(x, a) % a == 0,
        x <= aligned_up(x, a),
{
    if x % a != 0 {
        lemma_fundamental_div_mod(x as int, a as int);
        let q = x / a;
        assert(aligned_up(x, a) == (q + 1) * a) by (nonlinear_arith)
            requires
                x == a * q + x % a,
                aligned_up(x, a) == x + (a - x % a),
        ;
        lemma_mod_multiples_basic((q + 1) as int, a as int);
    }
}

/// A successful run build keeps what came before it in front.
proof fn lemma_seq_build_extends<B: BitBuffer, T: BinaryField<B>>(
    items: Seq<T>,
    o: Option<Options>,
    mode: Pad,
    done: Seq<bool>,
)
    requires
        seq_build::<B, T>(items, o, mode, done).0 is Ok,
    ensures
        done.len() <= seq_build::<B, T>(items, o, mode, done).0->Ok_0.len(),
        seq_build::<B, T>(items, o, mode, done).0->Ok_0.take(done.len() as int) == done,
    decreases items.len(),
{
    if items.len() > 0 {
        let (r, o1) = items[0].spec_build(o);
        let b = r->Ok_0;
        let (a, o2) = pad_step(mode, o1);
        let d = done + b;
        let n = aligned_up(d.len(), a);
        let nd = zero_fill(d, n);
        lemma_seq_build_extends::<B, T>(items.drop_first(), o2, mode, nd);
        let out = seq_build::<B, T>(items, o, mode, done).0->Ok_0;
        assert(out.take(done.len() as int) =~= done) by {
            assert forall|i: int| 0 <= i < done.len() implies out[i] == done[i] by {
                assert(out.take(nd.len() as int)[i] == nd[i]);
            }
        }
    } else {
        assert(done.take(done.len() as int) =~= done);
    }
}

/// Building the first `k` elements of a run gives a beginning of what building
/// the whole run gives.
proof fn lemma_seq_build_prefix<B: BitBuffer, T: BinaryField<B>>(
    items: Seq<T>,
    o: Option<Options>,
    mode: Pad,
    done: Seq<bool>,
    k: nat,
)
    requires
        seq_build::<B, T>(items, o, mode, done).0 is Ok,
        k <= items.len(),
    ensures
        seq_build::<B, T>(items.take(k as int), o, mode, done).0 is Ok,
        seq_build::<B, T>(items.take(k as int), o, mode, done).0->Ok_0.len()
            <= seq_build::<B, T>(items, o, mode, done).0->Ok_0.len(),
        seq_build::<B, T>(items, o, mode, done).0->Ok_0.take(
            seq_build::<B, T>(items.take(k as int), o, mode, done).0->Ok_0.len() as int,
        ) == seq_build::<B, T>(items.take(k as int), o, mode, done).0->Ok_0,
    decreases k,
{
    if k == 0 {
        assert(items.take(0) =~= Seq::<T>::empty());
        lemma_seq_build_extends::<B, T>(items, o, mode, done);
    } else {
        let t = items.take(k as int);
        assert(t[0] == items[0]);
        assert(t.drop_first() =~= items.drop_first().take(k - 1));
        let (r, o1) = items[0].spec_build(o);
        let b = r->Ok_0;
        let (a, o2) = pad_step(mode, o1);
        let d = done + b;
        let n = aligned_up(d.len(), a);
        lemma_seq_build_prefix::<B, T>(items.drop_first(), o2, mode, zero_fill(d, n), (k - 1) as nat);
    }
}

/// Under a fixed boundary `a`, a run that has built at least one element, or
/// that started on a boundary, ends on a boundary.
proof fn lemma_seq_build_aligned<B: BitBuffer, T: BinaryField<B>>(
    items: Seq<T>,
    o: Option<Options>,
    a: usize,
    done: Seq<bool>,
)
    requires
        a > 0,
        seq_build::<B, T>(items, o, Pad::Every(a), done).0 is Ok,
        items.len() > 0 || done.len() % (a as nat) == 0,
    ensures
        seq_build::<B, T>(items, o, Pad::Every(a), done).0->Ok_0.len() % (a as nat) == 0,
    decreases items.len(),
{
    if items.len() > 0 {
        let (r, o1) = items[0].spec_build(o);
        let b = r->Ok_0;
        let d = done + b;
        let n = aligned_up(d.len(), a as nat);
        lemma_aligned_up(d.len(), a as nat);
        lemma_seq_build_aligned::<B, T>(items.drop_first(), o1, a, zero_fill(d, n));
    }
}

/// With a boundary `A` set on the descriptor, the bits that a fixed array has
/// built after each of its elements fill a multiple of `A`, and begin the
/// array's encoding.
pub proof fn array_build_alignment<B: BitBuffer, T: BinaryField<B> + Default + Copy, const N: usize>(
    v: [T; N],
    o: Option<Options>,
    k: nat,
)
    requires
        o is Some,
        o->Some_0.align > 0,
        1 <= k <= N,
        <[T; N] as BinaryField<B>>::spec_build(&v, o).0 is Ok,
    ensures
        ({
            let whole = <[T; N] as BinaryField<B>>::spec_build(&v, o).0->Ok_0;
            let part = seq_build::<B, T>(v@.take(k as int), o, Pad::Every(o->Some_0.align), Seq::empty());
            &&& part.0 is Ok
            &&& part.0->Ok_0.len() % (o->Some_0.align as nat) == 0
            &&& whole.take(part.0->Ok_0.len() as int) == part.0->Ok_0
        }),
{
    let a = o->Some_0.align;
    lemma_seq_build_prefix::<B, T>(v@, o, Pad::Every(a), Seq::empty(), k);
    lemma_seq_build_aligned::<B, T>(v@.take(k as int), o, a, Seq::empty());
}

/// The descriptor after `j` alignment queries.
pub open spec fn after_queries(x: Options, j: nat) -> Options
    decreases j,
{
    if j == 0 {
        x
    } else {
        after_queries(x, (j - 1) as nat).spec_get_align().1
    }
}

proof fn lemma_after_queries(x: Options, j: nat)
    ensures
        after_queries(x, j).align == x.align,
        after_queries(x, j).size == x.size,
        after_queries(x, j).sub_align == (if j <= x.sub_align { x.sub_align - j } else { 0 }),
    decreases j,
{
    if j > 0 {
        lemma_after_queries(x, (j - 1) as nat);
    }
}

/// Of the successive alignment queries on one descriptor whose countdown
/// starts at `N`, the `N`th alone answers the boundary; every other query,
/// before or after it, answers nothing. A countdown of zero never answers.
pub proof fn countdown_fires_once(x: Options, j: nat)
    ensures
        after_queries(x, j).spec_get_align().0 == (if j + 1 == x.sub_align {
            Some(x.align)
        } else {
            None
        }),
{
    lemma_after_queries(x, j);
}

/// A run of booleans under a countdown of `c` is its bits with padding to the
/// boundary once, after the `c`th bit, or with no padding when the countdown
/// is zero or longer than the run.
proof fn lemma_bool_run<B: BitBuffer>(items: Seq<bool>, x: Options, done: Seq<bool>)
    requires
        x.sub_align == 0 || x.sub_align > items.len() ==> done.len() + items.len() <= MAX_BITS,
        1 <= x.sub_align <= items.len() ==> aligned_up((done.len() + x.sub_align) as nat, x.align as nat)
            + items.len() - x.sub_align <= MAX_BITS,
    ensures
        x.sub_align == 0 || x.sub_align > items.len() ==> seq_build::<B, bool>(
            items,
            Some(x),
            Pad::Countdown,
            done,
        ).0 == Ok::<Seq<bool>, FieldError>(done + items),
        1 <= x.sub_align <= items.len() ==> seq_build::<B, bool>(
            items,
            Some(x),
            Pad::Countdown,
            done,
        ).0 == Ok::<Seq<bool>, FieldError>(
            zero_fill(
                done + items.take(x.sub_align as int),
                aligned_up((done.len() + x.sub_align) as nat, x.align as nat),
            ) + items.skip(x.sub_align as int),
        ),
    decreases items.len(),
{
    if items.len() == 0 {
        assert(done + items =~= done);
    } else {
        let c = x.sub_align;
        let d = done + seq![items[0]];
        let tail = items.drop_first();
        let x2 = x.spec_get_align().1;
        if c == 0 {
            assert(zero_fill(d, d.len()) =~= d);
            lemma_bool_run::<B>(tail, x2, d);
            assert(d + tail =~= done + items);
        } else if c == 1 {
            let n = aligned_up(d.len(), x.align as nat);
            lemma_bool_run::<B>(tail, x2, zero_fill(d, n));
            assert(items.take(1) =~= seq![items[0]]);
            assert(items.skip(1) =~= tail);
        } else {
            assert(zero_fill(d, d.len()) =~= d);
            lemma_bool_run::<B>(tail, x2, d);
            if c <= items.len() {
                assert(d + tail.take(c - 2 + 1) =~= done + items.take(c as int));
                assert(tail.skip(c - 1) =~= items.skip(c as int));
            } else {
                assert(d + tail =~= done + items);
            }
        }
    }
}

/// A runtime-length list of booleans whose descriptor counts down from `N`,
/// with `1 <= N <=` its length, builds into its bits with padding to the
/// boundary inserted once, right after the `N`th element, and nowhere else;
/// with a countdown of zero, or longer than the list, it is not padded at all.
pub proof fn list_countdown_pads_once<B: BitBuffer>(v: Vec<bool>, x: Options)
    requires
        x.size > 0,
        x.sub_align == 0 || x.sub_align > v@.len() ==> v@.len() <= MAX_BITS,
        1 <= x.sub_align <= v@.len() ==> aligned_up(x.sub_align as nat, x.align as nat) + v@.len()
            - x.sub_align <= MAX_BITS,
    ensures
        x.sub_align == 0 || x.sub_align > v@.len() ==> BinaryField::<B>::spec_build(&v, Some(x)).0
            == Ok::<Seq<bool>, FieldError>(v@),
        1 <= x.sub_align <= v@.len() ==> BinaryField::<B>::spec_build(&v, Some(x)).0 == Ok::<
            Seq<bool>,
            FieldError,
        >(
            zero_fill(v@.take(x.sub_align as int), aligned_up(x.sub_align as nat, x.align as nat))
                + v@.skip(x.sub_align as int),
        ),
{
    lemma_bool_run::<B>(v@, x, Seq::empty());
    assert(Seq::<bool>::empty() + v@ =~= v@);
    assert(Seq::<bool>::empty() + v@.take(x.sub_align as int) =~= v@.take(x.sub_align as int));
}

/// A successful run parse of `k` elements also parses its first `kk`.
proof fn lemma_seq_parse_prefix<B: BitBuffer, T: BinaryField<B>>(
    bits: Seq<bool>,
    o: Option<Options>,
    k: nat,
    kk: nat,
    off: nat,
    mode: Pad,
)
    requires
        seq_parse::<B, T>(bits, o, k, off, mode).0 is Ok,
        kk <= k,
    ensures
        seq_parse::<B, T>(bits, o, kk, off, mode).0 is Ok,
    decreases kk,
{
    if kk > 0 {
        let (r, o1) = T::spec_parse(bits.skip(off as int), o);
        let (v, n) = r->Ok_0;
        let (a, o2) = pad_step(mode, o1);
        let end = off + n;
        let p = (aligned_up(end, a) - end) as nat;
        lemma_seq_parse_prefix::<B, T>(bits, o2, (k - 1) as nat, (kk - 1) as nat, end + p, mode);
    }
}

/// Under a fixed boundary `a`, a run parse of at least one element, or one that
/// starts on a boundary, ends on a boundary.
proof fn lemma_seq_parse_aligned<B: BitBuffer, T: BinaryField<B>>(
    bits: Seq<bool>,
    o: Option<Options>,
    k: nat,
    off: nat,
    a: usize,
)
    requires
        a > 0,
        seq_parse::<B, T>(bits, o, k, off, Pad::Every(a)).0 is Ok,
        k >= 1 || off % (a as nat) == 0,
    ensures
        seq_parse::<B, T>(bits, o, k, off, Pad::Every(a)).0->Ok_0.1 % (a as nat) == 0,
    decreases k,
{
    if k > 0 {
        let (r, o1) = T::spec_parse(bits.skip(off as int), o);
        let (v, n) = r->Ok_0;
        let end = off + n;
        lemma_aligned_up(end, a as nat);
        lemma_seq_parse_aligned::<B, T>(bits, o1, (k - 1) as nat, aligned_up(end, a as nat), a);
    }
}

/// With a boundary `A` set on the descriptor, the offset that a successful
/// fixed-array parse has reached after each of its elements is a multiple of `A`.
pub proof fn array_parse_alignment<B: BitBuffer, T: BinaryField<B> + Default + Copy, const N: usize>(
    bits: Seq<bool>,
    o: Option<Options>,
    k: nat,
)
    requires
        o is Some,
        o->Some_0.align > 0,
        1 <= k <= N,
        <[T; N] as BinaryField<B>>::spec_parse(bits, o).0 is Ok,
    ensures
        seq_parse::<B, T>(bits, o, k, 0, Pad::Every(o->Some_0.align)).0 is Ok,
        seq_parse::<B, T>(bits, o, k, 0, Pad::Every(o->Some_0.align)).0->Ok_0.1 % (
        o->Some_0.align as nat) == 0,
{
    let a = o->Some_0.align;
    lemma_seq_parse_prefix::<B, T>(bits, o, N as nat, k, 0, Pad::Every(a));
    lemma_seq_parse_aligned::<B, T>(bits, o, k, 0, a);
}

/// A runtime-length list with no descriptor fails with `MissingOptions`, and
/// one whose descriptor has a zero `size` fails with `MissingSize`, both to
/// parse and to build, whatever the bits or the elements.
pub proof fn list_needs_a_size<B: BitBuffer, T: BinaryField<B>>(bits: Seq<bool>, v: Vec<T>, x: Options)
    requires
        x.size == 0,
    ensures
        <Vec<T> as BinaryField<B>>::spec_parse(bits, None).0 == Err::<(Seq<T::V>, nat), FieldError>(
            FieldError::MissingOptions,
        ),
        <Vec<T> as BinaryField<B>>::spec_build(&v, None).0 == Err::<Seq<bool>, FieldError>(
            FieldError::MissingOptions,
        ),
        <Vec<T> as BinaryField<B>>::spec_parse(bits, Some(x)).0 == Err::<(Seq<T::V>, nat), FieldError>(
            FieldError::MissingSize,
        ),
        <Vec<T> as BinaryField<B>>::spec_build(&v, Some(x)).0 == Err::<Seq<bool>, FieldError>(
            FieldError::MissingSize,
        ),
{
}

} // verus!
