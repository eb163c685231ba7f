//! Files for later: what they are called and what they hold.

pub mod destination;
pub mod occupancy;
