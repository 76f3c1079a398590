//! What the integer algorithms need of a pixel type.

use vstd::prelude::*;

verus! {

/// An unsigned pixel value of at most 16 bits.
pub trait Pixel: Copy {
    /// The value as a natural number.
    spec fn value(&self) -> nat;

    /// The largest value of the type.
    spec fn max_value() -> nat;

    /// Values stay within the type's range, itself within 16 bits.
    proof fn lemma_range(p: Self)
        ensures
            p.value() <= Self::max_value(),
            Self::max_value() <= 65535,
    ;

    /// The value, widened.
    fn to_u32(&self) -> (r: u32)
        ensures
            r == self.value(),
    ;

    /// The pixel holding `v`.
    fn from_u32(v: u32) -> (r: Self)
        requires
            v <= Self::max_value(),
        ensures
            r.value() == v,
    ;
}

impl Pixel for u8 {
    open spec fn value(&self) -> nat {
        *self as nat
    }

    open spec fn max_value() -> nat {
        255
    }

    proof fn lemma_range(p: Self) {
    }

    fn to_u32(&self) -> (r: u32) {
        *self as u32
    }

    fn from_u32(v: u32) -> (r: Self) {
        v as u8
    }
}

impl Pixel for u16 {
    open spec fn value(&self) -> nat {
        *self as nat
    }

    open spec fn max_value() -> nat {
        65535
    }

    proof fn lemma_range(p: Self) {
    }

    fn to_u32(&self) -> (r: u32) {
        *self as u32
    }

    fn from_u32(v: u32) -> (r: Self) {
        v as u16
    }
}

} // verus!
