//! The arithmetic under the filters and estimators.

pub mod estimate;
pub mod fir;
pub mod resample;
pub mod testkit;
