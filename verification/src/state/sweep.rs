//! The band sweep: what is swept, what was found, and where the radio was before.

use crate::level::Level;
use vstd::prelude::*;

verus! {

/// The band to sweep and how long to stay at each position.
#[derive(Clone, Copy, Debug, PartialEq, Eq, Structural)]
pub struct SweepConfig {
    pub start_hz: u64,
    pub stop_hz: u64,
    pub dwell_ms: u64,
}

/// One completed pass over the band.
pub struct SweepFrame {
    pub start_hz: u64,
    pub stop_hz: u64,
    pub freq_hz: Vec<u64>,
    pub peak: Vec<Level>,
    pub mean: Vec<Level>,
    pub timestamp_ms: u64,
    pub cycle_count: u64,
    pub cycle_duration_ms: u64,
}

/// A sweep, running or not.
pub struct SweepState {
    pub active: bool,
    pub config: SweepConfig,
    /// Changes whenever traces of the sweep stop being comparable.
    pub generation: u64,
    /// Where the radio was before the sweep moved it.
    pub pre_sweep_hz: Option<u64>,
    /// Where the user asked to go from the sweep.
    pub pending_tune: Option<u64>,
    pub cycle_count: u64,
    pub cycle_duration_ms: u64,
    pub positions_done: usize,
    pub positions_total: usize,
    pub current_hz: u64,
    pub current_frame: Option<SweepFrame>,
}

/// Where the radio goes when a sweep ends, and whether the user chose it.
#[derive(Clone, Copy, Debug, PartialEq, Eq, Structural)]
pub struct SweepExit {
    pub tune_hz: u64,
    pub jumped: bool,
}

impl SweepState {
    /// Where the radio belongs once the sweep is over: where the user asked to
    /// go, else where it was before, else where it is.
    pub open spec fn exit_from(self, tuned_hz: u64) -> SweepExit {
        match self.pending_tune {
            Some(hz) => SweepExit { tune_hz: hz, jumped: true },
            None => SweepExit {
                tune_hz: match self.pre_sweep_hz {
                    Some(hz) => hz,
                    None => tuned_hz,
                },
                jumped: false,
            },
        }
    }

    /// The sweep once it has given the tuner back.
    pub open spec fn ended(self) -> SweepState {
        SweepState { pending_tune: None, pre_sweep_hz: None, ..self }
    }

    /// Ends the sweep and says where the radio belongs.
    pub fn end(&mut self, tuned_hz: u64) -> (exit: SweepExit)
        ensures
            exit == old(self).exit_from(tuned_hz),
            *final(self) == old(self).ended(),
    {
        let exit = match self.pending_tune {
            Some(hz) => SweepExit { tune_hz: hz, jumped: true },
            None => match self.pre_sweep_hz {
                Some(hz) => SweepExit { tune_hz: hz, jumped: false },
                None => SweepExit { tune_hz: tuned_hz, jumped: false },
            },
        };
        self.pending_tune = None;
        self.pre_sweep_hz = None;
        exit
    }
}

/// A sweep that ends goes where the user asked to go, else back to where it found the
/// radio, else nowhere; and then it has nothing left to go back to. Nothing else of it
/// changes.
pub proof fn law_a_sweep_goes_where_it_was_sent_or_back(s: SweepState, tuned_hz: u64)
    ensures
        s.pending_tune matches Some(hz) ==> s.exit_from(tuned_hz) == (SweepExit {
            tune_hz: hz,
            jumped: true,
        }),
        s.pending_tune is None ==> !s.exit_from(tuned_hz).jumped,
        s.pending_tune is None && s.pre_sweep_hz is Some ==> s.exit_from(tuned_hz).tune_hz
            == s.pre_sweep_hz->Some_0,
        s.pending_tune is None && s.pre_sweep_hz is None ==> s.exit_from(tuned_hz).tune_hz
            == tuned_hz,
        s.ended().pending_tune is None && s.ended().pre_sweep_hz is None,
        s.ended() == (SweepState {
            pending_tune: s.ended().pending_tune,
            pre_sweep_hz: s.ended().pre_sweep_hz,
            ..s
        }),
{
}

} // verus!
