//! The radios driven without an outside driver layer.

pub mod hackrf;
pub mod rtlsdr;
