//! What is measured from the samples and traces that devices deliver.

pub mod dsp;
pub mod fft;
pub mod net;
pub mod power;
pub mod stats;
pub mod stream;
