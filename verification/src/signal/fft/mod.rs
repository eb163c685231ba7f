//! The spectrum of the samples, once the transform has been taken.

pub mod publish;
