//! What the 2.4 GHz receiver is doing right now.

use vstd::prelude::*;

verus! {

/// Whether the receiver walks the band or sits on one channel. This changes what
/// every number measured under it means.
#[derive(Clone, Copy, Debug, PartialEq, Eq, Structural)]
pub enum NetMode {
    Survey,
    Lock,
}

impl Default for NetMode {
    /// A receiver that has not been told where to sit is surveying.
    fn default() -> (mode: Self)
        ensures
            mode == NetMode::Survey,
    {
        NetMode::Survey
    }
}

impl NetMode {
    pub open spec fn word(self) -> Seq<char> {
        match self {
            NetMode::Survey => "SURVEY"@,
            NetMode::Lock => "LOCK"@,
        }
    }

    /// The word the header shows.
    pub fn label(self) -> (t: &'static str)
        ensures
            t@ == self.word(),
    {
        match self {
            NetMode::Survey => "SURVEY",
            NetMode::Lock => "LOCK",
        }
    }
}

/// What the receiver missed, and what it never had a chance to see. Every field
/// counts something that happened.
#[derive(Clone, Copy, Debug, PartialEq, Eq, Structural)]
pub struct NetDecodeHealth {
    /// Blocks that reached the worker.
    pub blocks_in: u64,
    /// I/Q pairs in them.
    pub pairs_in: u64,
    /// Blocks that did not continue the one before them. The first block of a
    /// run is not one of these.
    pub gaps: u64,
    /// A floor on the blocks that went missing over those gaps.
    pub blocks_lost: u64,
    /// Unbroken blocks since the last gap.
    pub run_blocks: u64,
    /// Blocks the bounded feed refused in the last window, and in all.
    pub refused: u64,
    pub refused_session: u64,
    /// The deepest the feed queue got in the last window.
    pub peak_depth: u64,
    /// When the last block arrived.
    pub last_block_ms: Option<u64>,
}

impl Default for NetDecodeHealth {
    fn default() -> (h: Self)
        ensures
            h == (NetDecodeHealth {
                blocks_in: 0,
                pairs_in: 0,
                gaps: 0,
                blocks_lost: 0,
                run_blocks: 0,
                refused: 0,
                refused_session: 0,
                peak_depth: 0,
                last_block_ms: None,
            }),
    {
        NetDecodeHealth {
            blocks_in: 0,
            pairs_in: 0,
            gaps: 0,
            blocks_lost: 0,
            run_blocks: 0,
            refused: 0,
            refused_session: 0,
            peak_depth: 0,
            last_block_ms: None,
        }
    }
}

/// The state every panel of the section shares.
#[derive(Clone, Copy, Debug, PartialEq, Eq, Structural)]
pub struct NetState {
    pub mode: NetMode,
    pub health: NetDecodeHealth,
    /// Where the radio was before a survey moved it.
    pub pre_survey_hz: Option<u64>,
}

impl Default for NetState {
    fn default() -> (s: Self)
        ensures
            s.mode == NetMode::Survey,
            s.health == (NetDecodeHealth {
                blocks_in: 0,
                pairs_in: 0,
                gaps: 0,
                blocks_lost: 0,
                run_blocks: 0,
                refused: 0,
                refused_session: 0,
                peak_depth: 0,
                last_block_ms: None,
            }),
            s.pre_survey_hz is None,
    {
        NetState {
            mode: NetMode::default(),
            health: NetDecodeHealth::default(),
            pre_survey_hz: None,
        }
    }
}

/// Where the radio goes when a survey ends, and whether it was locked there.
#[derive(Clone, Copy, Debug, PartialEq, Eq, Structural)]
pub struct NetExit {
    pub tune_hz: u64,
    pub locked: bool,
}

impl NetState {
    /// Where the radio belongs once a survey is over. Locking means stay here;
    /// anything else means go back where the survey found it.
    pub open spec fn exit_from(self, tuned_hz: u64) -> NetExit {
        if self.mode == NetMode::Lock {
            NetExit { tune_hz: tuned_hz, locked: true }
        } else {
            NetExit {
                tune_hz: match self.pre_survey_hz {
                    Some(hz) => hz,
                    None => tuned_hz,
                },
                locked: false,
            }
        }
    }

    /// Ends a survey and says where the radio belongs. On a state that never
    /// surveyed the radio stays where it is.
    pub fn end(&mut self, tuned_hz: u64) -> (exit: NetExit)
        ensures
            exit == old(self).exit_from(tuned_hz),
            *final(self) == (NetState { pre_survey_hz: None, ..*old(self) }),
    {
        let before = self.pre_survey_hz;
        self.pre_survey_hz = None;
        if self.mode == NetMode::Lock {
            return NetExit { tune_hz: tuned_hz, locked: true };
        }
        match before {
            Some(hz) => NetExit { tune_hz: hz, locked: false },
            None => NetExit { tune_hz: tuned_hz, locked: false },
        }
    }
}

/// A survey that ends goes back to where it found the radio, and a lock stays where it is.
pub proof fn law_a_survey_goes_back_and_a_lock_stays(net: NetState, tuned_hz: u64, found_hz: u64)
    ensures
        net.mode == NetMode::Lock ==> net.exit_from(tuned_hz) == (NetExit {
            tune_hz: tuned_hz,
            locked: true,
        }),
        net.mode == NetMode::Survey && net.pre_survey_hz == Some(found_hz) ==> net.exit_from(
            tuned_hz,
        ) == (NetExit { tune_hz: found_hz, locked: false }),
        net.mode == NetMode::Survey && net.pre_survey_hz is None ==> net.exit_from(tuned_hz) == (
        NetExit { tune_hz: tuned_hz, locked: false }),
{
}

} // verus!
