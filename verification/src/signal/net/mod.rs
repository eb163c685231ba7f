//! The 2.4 GHz band: its channels, who may look at it, and what is seen there.

pub mod band;
pub mod census;
pub mod gate;
pub mod occupancy;
pub mod scan;
pub mod survey;
pub mod worker;
