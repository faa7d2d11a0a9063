//! The per-field descriptor handed to every codec call, the errors a codec
//! reports, and how a bit offset is padded up to an alignment boundary.

use vstd::prelude::*;

verus! {

/// Why a parse or a build failed.
#[derive(Debug, PartialEq, Eq)]
pub enum FieldError {
    /// The input holds `got` bits where `needed` are required.
    InsufficientBits { needed: usize, got: usize },
    /// A runtime-length list was given no descriptor.
    MissingOptions,
    /// A runtime-length list was given a descriptor whose `size` is zero.
    MissingSize,
    /// A build would make a buffer longer than the largest one that can be held.
    CapacityExceeded,
    /// A failure raised by a caller that composes codecs.
    Custom(String),
}

/// The configuration of one field invocation, shared by every nested call that
/// the invocation makes.
#[derive(Debug)]
pub struct Options {
    /// A label for diagnostics.
    pub name: String,
    /// The element count of a runtime-length list.
    pub size: usize,
    /// The padding boundary in bits; zero means no padding.
    pub align: usize,
    /// The one-shot countdown: alignment fires on the query that takes it to zero.
    pub sub_align: u8,
}

impl Options {
    pub fn new(name: String, size: usize, align: usize, sub_align: u8) -> (r: Options)
        ensures
            r == (Options { name, size, align, sub_align }),
    {
        Options { name, size, align, sub_align }
    }

    /// What one alignment query answers, and the descriptor it leaves behind.
    pub open spec fn spec_get_align(self) -> (Option<usize>, Options) {
        if self.sub_align == 0 {
            (None, self)
        } else {
            let n = (self.sub_align - 1) as u8;
            (
                if n == 0 { Some(self.align) } else { None },
                Options { name: self.name, size: self.size, align: self.align, sub_align: n },
            )
        }
    }

    /// Counts the countdown down by one; answers the alignment boundary on the
    /// query that reaches zero, and nothing on every other query.
    pub fn get_align(&mut self) -> (r: Option<usize>)
        ensures
            (r, *final(self)) == old(self).spec_get_align(),
    {
        let n = self.sub_align;
        if n == 0 {
            return None;
        }
        let new = n - 1;
        self.sub_align = new;
        if new == 0 {
            Some(self.align)
        } else {
            None
        }
    }
}

impl Default for Options {
    /// An unnamed descriptor with no count, no boundary and no countdown.
    fn default() -> (r: Options)
        ensures
            r.name@ == Seq::<char>::empty(),
            r.size == 0,
            r.align == 0,
            r.sub_align == 0,
    {
        Options { name: String::new(), size: 0, align: 0, sub_align: 0 }
    }
}

/// The element count that a descriptor carries, if there is one.
pub open spec fn size_of(o: Option<Options>) -> Option<usize> {
    match o {
        Some(x) => Some(x.size),
        None => None,
    }
}

/// `off` rounded up to the next multiple of `a`; unchanged when `a` is zero.
pub open spec fn aligned_up(off: nat, a: nat) -> nat {
    if a == 0 || off % a == 0 {
        off
    } else {
        off + (a - off % a) as nat
    }
}

/// `off` padded by an optional boundary.
pub open spec fn padded(off: nat, a: Option<usize>) -> nat {
    match a {
        Some(a) => aligned_up(off, a as nat),
        None => off,
    }
}

/// The number of padding bits that bring `off` to a multiple of `a`.
pub fn pad_amount(off: usize, a: usize) -> (r: usize)
    ensures
        off + r == aligned_up(off as nat, a as nat),
        a > 0 ==> r < a,
        a == 0 ==> r == 0,
{
    if a == 0 {
        0
    } else {
        let m = off % a;
        if m == 0 {
            0
        } else {
            a - m
        }
    }
}

} // verus!
