//! The measured state the panels show.

pub mod net;
pub mod sweep;
pub mod waterfall;

use vstd::prelude::*;

verus! {

/// Where a radio is tuned before anybody tunes it.
pub const DEFAULT_FREQUENCY: u64 = 100_000_000;

/// The sample rate a radio starts with.
pub const DEFAULT_SAMPLE_RATE: u64 = 10_000_000;

/// Samples in one transfer of a HackRF.
pub const HACKRF_SAMPLES_PER_TRANSFER: u32 = 131_072;

/// How long a tuner takes to settle after it was moved.
pub const SWEEP_SETTLING_MS: u64 = 25;

/// Where the radio is and whether it receives.
#[derive(Clone, Copy, Debug, PartialEq, Eq, Structural)]
pub struct RadioState {
    pub frequency: u64,
    pub rx_enabled: bool,
    pub hw_streaming: bool,
    pub sample_rate_hz: u64,
    /// The bandwidth of the baseband filter, or zero where there is none.
    pub bb_filter_hz: u32,
}

} // verus!
