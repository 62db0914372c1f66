//! A complex number with integer parts, as carried by IQ sample streams.

use vstd::prelude::*;

verus! {

/// A complex value `re + i * im`.
#[derive(Clone, Copy, Debug, PartialEq, Eq)]
pub struct Complex<T> {
    pub re: T,
    pub im: T,
}

impl<T> Complex<T> {
    /// Builds the complex value `re + i * im`.
    pub fn new(re: T, im: T) -> (r: Self)
        ensures
            r.re == re,
            r.im == im,
    {
        Complex { re, im }
    }
}

/// Types with a zero value.
pub trait Zero: Sized {
    /// The zero value.
    spec fn spec_zero() -> Self;

    /// Returns the zero value.
    fn zero() -> (r: Self)
        ensures
            r == Self::spec_zero(),
    ;
}

impl Zero for u8 {
    open spec fn spec_zero() -> Self {
        0
    }

    fn zero() -> (r: Self) {
        0
    }
}

impl Zero for u16 {
    open spec fn spec_zero() -> Self {
        0
    }

    fn zero() -> (r: Self) {
        0
    }
}

impl Zero for u32 {
    open spec fn spec_zero() -> Self {
        0
    }

    fn zero() -> (r: Self) {
        0
    }
}

impl Zero for u64 {
    open spec fn spec_zero() -> Self {
        0
    }

    fn zero() -> (r: Self) {
        0
    }
}

impl Zero for i8 {
    open spec fn spec_zero() -> Self {
        0
    }

    fn zero() -> (r: Self) {
        0
    }
}

impl Zero for i16 {
    open spec fn spec_zero() -> Self {
        0
    }

    fn zero() -> (r: Self) {
        0
    }
}

impl Zero for i32 {
    open spec fn spec_zero() -> Self {
        0
    }

    fn zero() -> (r: Self) {
        0
    }
}

impl Zero for i64 {
    open spec fn spec_zero() -> Self {
        0
    }

    fn zero() -> (r: Self) {
        0
    }
}

impl Zero for Complex<i16> {
    open spec fn spec_zero() -> Self {
        Complex { re: 0, im: 0 }
    }

    fn zero() -> (r: Self) {
        Complex { re: 0, im: 0 }
    }
}

} // verus!
