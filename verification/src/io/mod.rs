//! Sample stream formats for file and socket input and output.

pub mod raw_iq;
