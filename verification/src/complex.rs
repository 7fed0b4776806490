//! The sample type carried through every block: a complex number held as a
//! pair of IEEE 754 single-precision bit patterns.
//!
//! The verified code never interprets the bits; all arithmetic on samples
//! goes through the trusted transform layer (`crate::transform`), so here a
//! sample is just an opaque pair of words that can be moved, compared and
//! stored.
use vstd::prelude::*;

verus! {

/// One complex sample: `re` and `im` hold the bit patterns of the real and
/// imaginary parts (single-precision floats).
#[derive(Clone, Copy, Debug, PartialEq, Eq, Structural)]
pub struct Complex {
    /// Bit pattern of the real part.
    pub re: u32,
    /// Bit pattern of the imaginary part.
    pub im: u32,
}

/// The all-zero sample (`0.0 + 0.0i`; both parts have an all-zero bit
/// pattern).
pub open spec fn zero_sample() -> Complex {
    Complex { re: 0, im: 0 }
}

/// A sequence of `n` zero samples, used for padding and for a fresh tail.
pub open spec fn zero_seq(n: nat) -> Seq<Complex> {
    Seq::new(n, |i: int| zero_sample())
}

impl Complex {
    /// Build a sample from the two bit patterns.
    pub fn new(re: u32, im: u32) -> (r: Complex)
        ensures
            r == (Complex { re, im }),
    {
        Complex { re, im }
    }

    /// The zero sample.
    pub fn zero() -> (r: Complex)
        ensures
            r == zero_sample(),
    {
        Complex { re: 0, im: 0 }
    }
}

} // verus!
