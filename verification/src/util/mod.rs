//! Helpers shared by the nodes: errors of the tap calculators, pulse tap
//! generators and resampling.

pub mod blocks;
pub mod math;
pub mod resample_node;

use vstd::prelude::*;

verus! {

/// The ways in which a tap calculation can fail.
#[derive(Clone, Copy, Debug, PartialEq, Eq)]
pub enum MathError {
    ConvertError,
    InvalidRolloffError,
}

/// The text that describes a tap calculation error.
pub open spec fn math_error_text(e: MathError) -> Seq<char> {
    match e {
        MathError::ConvertError => "Math error: Type conversion from generic failed"@,
        MathError::InvalidRolloffError => "Math error: Invalid rolloff parameter, must be on interval [0.0, 1.0]"@,
    }
}

impl MathError {
    /// Describes the error for people.
    pub fn to_string(&self) -> (r: String)
        ensures
            r@ == math_error_text(*self),
    {
        match self {
            MathError::ConvertError => "Math error: Type conversion from generic failed".to_owned(),
            MathError::InvalidRolloffError => "Math error: Invalid rolloff parameter, must be on interval [0.0, 1.0]".to_owned(),
        }
    }
}

} // verus!
