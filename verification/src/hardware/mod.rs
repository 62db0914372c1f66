//! Radio front ends: generic transmit and receive interfaces, and the
//! control logic of an RTL-SDR tuner.

pub mod radio;
pub mod rtlsdr_node;
pub mod rtlsdr_radio;
