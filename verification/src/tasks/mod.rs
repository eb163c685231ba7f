//! The loops that steer the tuner, as steps between outside calls.

pub mod band;
pub mod direct;
pub mod net;
