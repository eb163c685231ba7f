//! Sweeps that walk the tuner over a band.
//!
//! A pass visits one position after another: retune, settle, dwell while the
//! shared spectra come in, record the peak and the mean of every bin, go on. A
//! completed pass is published as one frame.

use crate::hardware::tinysa::scan;
use crate::level;
use crate::level::Level;
use crate::state::sweep::{SweepConfig, SweepFrame, SweepState};
use crate::state::waterfall::{FftFrame, MAX_BINS};
use crate::state::RadioState;
use crate::tasks::direct::SweepNote;
use vstd::prelude::*;

verus! {

/// How often the spectra are looked at during a dwell.
pub const DWELL_POLL_MS: u64 = 10;

/// A spectrum older than this is not of the present position.
pub const FRAME_FRESH_MS: u64 = 200;

/// How long to wait when no sweep is wanted.
pub const IDLE_MS: u64 = 100;

/// How long to wait when the band has no position.
pub const EMPTY_BAND_MS: u64 = 200;

/// What to do at the top of the loop.
#[derive(Clone, Copy, Debug, PartialEq, Eq, Structural)]
pub enum TopMove {
    Sleep(u64),
    /// Give the tuner back, then sleep.
    Restore { tune_hz: u64, sleep_ms: u64 },
    Cycle,
}

/// A sweep in progress.
pub struct BandSweep {
    pub was_active: bool,
    pub saved_rx_enabled: bool,
    pub cycle_start_ms: u64,
    /// What the pass is made with: changes of the settings wait for the next one.
    pub config: SweepConfig,
    pub rate_hz: i64,
    /// What the pass has recorded so far.
    pub freq_hz: Vec<u64>,
    pub peak: Vec<Level>,
    pub mean: Vec<Level>,
    /// What the present position has seen: the peak and the sum of every bin, the
    /// width of the spectrum, and how many spectra.
    pub pos_peak: Vec<Level>,
    pub pos_sum: Vec<Option<i128>>,
    pub pos_rate_hz: i64,
    pub frames: u64,
}

/// The frequency a bin of a position stands for, in whole hertz and not below zero.
pub open spec fn bin_hz(hz: u64, rate_hz: i64, n: int, j: int) -> int {
    let twice = 2 * n * hz - n * rate_hz + 2 * (j * rate_hz);
    if twice < 0 {
        0
    } else {
        twice / (2 * n)
    }
}

/// Whether a spectrum counts for a position.
pub open spec fn counts(frame: FftFrame, hz: u64, now_ms: u64) -> bool {
    frame.center_freq_hz == hz && now_ms - frame.timestamp_ms < FRAME_FRESH_MS
}

/// A sum with one more level. What is missing once stays missing.
pub open spec fn plus(sum: Option<i128>, level: Level) -> Option<i128> {
    match (sum, level) {
        (Some(s), Some(l)) => Some((s + l) as i128),
        _ => None,
    }
}

/// The mean of so many levels that add up to a sum.
pub open spec fn mean_of(sum: Option<i128>, frames: u64) -> Level {
    match sum {
        Some(s) => Some(level::rounded(s as int, frames as int) as i64),
        None => None,
    }
}

/// What happens at the top of the loop.
pub open spec fn topped(
    before: BandSweep,
    sweep: SweepState,
    radio: RadioState,
    positions: usize,
    now_ms: u64,
    after: BandSweep,
    sweep_after: SweepState,
    radio_after: RadioState,
    r: (TopMove, Option<SweepNote>),
) -> bool {
    &&& after.was_active == sweep.active
    &&& sweep.active && !before.was_active ==> {
        &&& after.saved_rx_enabled == radio.rx_enabled
        &&& radio_after == (RadioState { rx_enabled: true, ..radio })
        &&& sweep_after == (SweepState {
            pre_sweep_hz: Some(radio.frequency),
            cycle_count: 0,
            positions_done: 0,
            positions_total: positions,
            ..sweep
        })
        &&& r.1 == Some(
            SweepNote::Started {
                start_hz: sweep.config.start_hz,
                stop_hz: sweep.config.stop_hz,
            },
        )
    }
    &&& sweep.active && before.was_active ==> {
        &&& after.saved_rx_enabled == before.saved_rx_enabled
        &&& radio_after == radio
        &&& sweep_after == sweep
        &&& r.1 is None
    }
    &&& !sweep.active && before.was_active ==> {
        let exit = sweep.exit_from(radio.frequency);
        &&& r.0 == (TopMove::Restore { tune_hz: exit.tune_hz, sleep_ms: IDLE_MS })
        &&& sweep_after == sweep.ended()
        &&& radio_after == (RadioState {
            frequency: exit.tune_hz,
            rx_enabled: exit.jumped || before.saved_rx_enabled,
            ..radio
        })
        &&& r.1 == Some(
            if exit.jumped {
                SweepNote::Tuned(exit.tune_hz)
            } else {
                SweepNote::Stopped
            },
        )
    }
    &&& !sweep.active && !before.was_active ==> {
        &&& r.0 == TopMove::Sleep(IDLE_MS)
        &&& sweep_after == sweep
        &&& radio_after == radio
        &&& r.1 is None
    }
    &&& sweep.active ==> r.0 == if positions == 0 {
        TopMove::Sleep(EMPTY_BAND_MS)
    } else {
        TopMove::Cycle
    }
    &&& r.0 == TopMove::Cycle ==> {
        &&& after.freq_hz@.len() == 0
        &&& after.cycle_start_ms == now_ms
        &&& after.config == sweep.config
        &&& after.rate_hz == radio.sample_rate_hz as i64
    }
}

/// What going to a position does.
pub open spec fn positioned(
    before: BandSweep,
    sweep: SweepState,
    radio: RadioState,
    index: usize,
    wanted_hz: u64,
    min_hz: u64,
    max_hz: u64,
    after: BandSweep,
    sweep_after: SweepState,
    radio_after: RadioState,
    r: Option<u64>,
) -> bool {
    &&& after.was_active == before.was_active
    &&& after.saved_rx_enabled == before.saved_rx_enabled
    &&& after.cycle_start_ms == before.cycle_start_ms
    &&& after.config == before.config
    &&& after.rate_hz == before.rate_hz
    &&& after.freq_hz == before.freq_hz
    &&& after.peak == before.peak
    &&& after.mean == before.mean
    &&& if sweep.active {
        let hz = scan::clamped(wanted_hz as int, min_hz as int, max_hz as int) as u64;
        &&& r == Some(hz)
        &&& radio_after == (RadioState { frequency: hz, ..radio })
        &&& sweep_after == (SweepState {
            current_hz: hz,
            positions_done: index,
            ..sweep
        })
        &&& after.frames == 0
        &&& after.pos_peak@.len() == 0
        &&& after.pos_rate_hz == before.rate_hz
    } else {
        &&& r is None
        &&& radio_after == radio
        &&& sweep_after == sweep
    }
}

/// What a pass that ends leaves in the sweep.
pub open spec fn pass_told(
    before: BandSweep,
    sweep: SweepState,
    positions: usize,
    now_ms: u64,
    sweep_after: SweepState,
) -> bool {
    &&& !sweep.active || before.freq_hz@.len() == 0 ==> sweep_after == sweep
    &&& sweep.active && before.freq_hz@.len() > 0 ==> {
        let took = (now_ms - before.cycle_start_ms) as u64;
        &&& sweep_after == (SweepState {
            cycle_count: (sweep.cycle_count + 1) as u64,
            cycle_duration_ms: took,
            positions_done: positions,
            current_frame: sweep_after.current_frame,
            ..sweep
        })
        &&& sweep_after.current_frame matches Some(f) && f == (SweepFrame {
            start_hz: before.config.start_hz,
            stop_hz: before.config.stop_hz,
            freq_hz: before.freq_hz,
            peak: before.peak,
            mean: before.mean,
            timestamp_ms: now_ms,
            cycle_count: (sweep.cycle_count + 1) as u64,
            cycle_duration_ms: took,
        })
    }
}

/// What a position that ends adds to the pass.
pub open spec fn position_told(before: BandSweep, hz: u64, after: BandSweep) -> bool {
    let n = if before.frames > 0 {
        before.pos_peak@.len() as int
    } else {
        0
    };
    let from = before.freq_hz@.len() as int;
    &&& after.freq_hz@.len() == from + n
    &&& after.freq_hz@.take(from) == before.freq_hz@
    &&& after.peak@.take(from) == before.peak@
    &&& after.mean@.take(from) == before.mean@
    &&& forall|j: int|
        0 <= j < n ==> #[trigger] after.freq_hz@[from + j] == bin_hz(
            hz,
            before.pos_rate_hz,
            n,
            j,
        )
    &&& forall|j: int|
        0 <= j < n ==> #[trigger] after.peak@[from + j] == before.pos_peak@[j]
    &&& forall|j: int|
        0 <= j < n ==> #[trigger] after.mean@[from + j] == mean_of(
            before.pos_sum@[j],
            before.frames,
        )
}

impl BandSweep {
    pub open spec fn valid(self) -> bool {
        &&& self.freq_hz@.len() == self.peak@.len()
        &&& self.freq_hz@.len() == self.mean@.len()
        &&& self.pos_peak@.len() == self.pos_sum@.len()
        &&& self.pos_peak@.len() <= MAX_BINS
        &&& forall|i: int|
            0 <= i < self.pos_sum@.len() ==> (#[trigger] self.pos_sum@[i] matches Some(s)
                ==> i64::MIN * self.frames <= s <= i64::MAX * self.frames)
    }

    /// Whether a spectrum has another number of bins than those before it.
    pub open spec fn resized(self, frame: FftFrame) -> bool {
        self.pos_peak@.len() != frame.bins@.len()
    }

    pub open spec fn peak_before(self, frame: FftFrame, i: int) -> Level {
        if self.resized(frame) {
            None
        } else {
            self.pos_peak@[i]
        }
    }

    pub open spec fn sum_before(self, frame: FftFrame, i: int) -> Option<i128> {
        if self.resized(frame) {
            Some(0i128)
        } else {
            self.pos_sum@[i]
        }
    }

    /// No sweep, and nothing recorded.
    pub fn new() -> (b: Self)
        ensures
            b.valid(),
            !b.was_active && !b.saved_rx_enabled,
            b.cycle_start_ms == 0,
            b.config == (SweepConfig { start_hz: 0, stop_hz: 0, dwell_ms: 0 }),
            b.rate_hz == 0 && b.pos_rate_hz == 0,
            b.freq_hz@.len() == 0 && b.peak@.len() == 0 && b.mean@.len() == 0,
            b.pos_peak@.len() == 0 && b.pos_sum@.len() == 0 && b.frames == 0,
    {
        BandSweep {
            was_active: false,
            saved_rx_enabled: false,
            cycle_start_ms: 0,
            config: SweepConfig { start_hz: 0, stop_hz: 0, dwell_ms: 0 },
            rate_hz: 0,
            freq_hz: Vec::new(),
            peak: Vec::new(),
            mean: Vec::new(),
            pos_peak: Vec::new(),
            pos_sum: Vec::new(),
            pos_rate_hz: 0,
            frames: 0,
        }
    }

    /// The top of the loop: starts a session when a sweep is wanted, gives the
    /// tuner back when it no longer is, and otherwise starts a pass.
    pub fn top(
        &mut self,
        sweep: &mut SweepState,
        radio: &mut RadioState,
        positions: usize,
        now_ms: u64,
    ) -> (r: (TopMove, Option<SweepNote>))
        requires
            old(self).valid(),
        ensures
            final(self).valid(),
            topped(
                *old(self),
                *old(sweep),
                *old(radio),
                positions,
                now_ms,
                *final(self),
                *final(sweep),
                *final(radio),
                r,
            ),
    {
        if !sweep.active {
            if !self.was_active {
                return (TopMove::Sleep(IDLE_MS), None);
            }
            self.was_active = false;
            let exit = sweep.end(radio.frequency);
            radio.frequency = exit.tune_hz;
            radio.rx_enabled = exit.jumped || self.saved_rx_enabled;
            let note = if exit.jumped {
                SweepNote::Tuned(exit.tune_hz)
            } else {
                SweepNote::Stopped
            };
            return (TopMove::Restore { tune_hz: exit.tune_hz, sleep_ms: IDLE_MS }, Some(note));
        }
        let mut note: Option<SweepNote> = None;
        if !self.was_active {
            self.was_active = true;
            sweep.pre_sweep_hz = Some(radio.frequency);
            self.saved_rx_enabled = radio.rx_enabled;
            radio.rx_enabled = true;
            sweep.cycle_count = 0;
            sweep.positions_done = 0;
            sweep.positions_total = positions;
            note = Some(
                SweepNote::Started {
                    start_hz: sweep.config.start_hz,
                    stop_hz: sweep.config.stop_hz,
                },
            );
        }
        if positions == 0 {
            return (TopMove::Sleep(EMPTY_BAND_MS), note);
        }
        self.cycle_start_ms = now_ms;
        self.config = sweep.config;
        self.rate_hz = radio.sample_rate_hz as i64;
        self.freq_hz = Vec::new();
        self.peak = Vec::new();
        self.mean = Vec::new();
        (TopMove::Cycle, note)
    }

    /// Goes to a position of the pass and says where to tune, or that the sweep
    /// is no longer wanted.
    pub fn start_position(
        &mut self,
        sweep: &mut SweepState,
        radio: &mut RadioState,
        index: usize,
        wanted_hz: u64,
        min_hz: u64,
        max_hz: u64,
    ) -> (r: Option<u64>)
        requires
            old(self).valid(),
            min_hz <= max_hz,
        ensures
            final(self).valid(),
            positioned(
                *old(self),
                *old(sweep),
                *old(radio),
                index,
                wanted_hz,
                min_hz,
                max_hz,
                *final(self),
                *final(sweep),
                *final(radio),
                r,
            ),
    {
        if !sweep.active {
            return None;
        }
        let hz: u64 = scan::clamp_hz(wanted_hz, min_hz, max_hz);
        radio.frequency = hz;
        sweep.current_hz = hz;
        sweep.positions_done = index;
        self.pos_peak = Vec::new();
        self.pos_sum = Vec::new();
        self.pos_rate_hz = self.rate_hz;
        self.frames = 0;
        Some(hz)
    }

    /// Whether the dwell at a position goes on.
    pub fn dwells(&self, elapsed_ms: u64) -> (r: bool)
        ensures
            r == (elapsed_ms < self.config.dwell_ms),
    {
        elapsed_ms < self.config.dwell_ms
    }

    /// Takes a spectrum into the present position, where it is of that position.
    pub fn harvest(&mut self, frame: &FftFrame, hz: u64, now_ms: u64)
        requires
            old(self).valid(),
            frame.bins@.len() <= MAX_BINS,
            old(self).frames < u64::MAX,
        ensures
            final(self).valid(),
            final(self).was_active == old(self).was_active,
            final(self).saved_rx_enabled == old(self).saved_rx_enabled,
            final(self).cycle_start_ms == old(self).cycle_start_ms,
            final(self).config == old(self).config,
            final(self).rate_hz == old(self).rate_hz,
            final(self).freq_hz == old(self).freq_hz,
            final(self).peak == old(self).peak,
            final(self).mean == old(self).mean,
            !counts(*frame, hz, now_ms) ==> *final(self) == *old(self),
            counts(*frame, hz, now_ms) ==> {
                &&& final(self).frames == old(self).frames + 1
                &&& final(self).pos_rate_hz == if old(self).resized(*frame) {
                    frame.sample_rate_hz
                } else {
                    old(self).pos_rate_hz
                }
                &&& final(self).pos_peak@.len() == frame.bins@.len()
                &&& forall|i: int|
                    0 <= i < frame.bins@.len() ==> #[trigger] final(self).pos_peak@[i]
                        == level::higher(old(self).peak_before(*frame, i), frame.bins@[i])
                &&& forall|i: int|
                    0 <= i < frame.bins@.len() ==> #[trigger] final(self).pos_sum@[i] == plus(
                        old(self).sum_before(*frame, i),
                        frame.bins@[i],
                    )
            },
    {
        let age_ok = now_ms < frame.timestamp_ms || now_ms - frame.timestamp_ms < FRAME_FRESH_MS;
        if frame.center_freq_hz != hz || !age_ok {
            return;
        }
        let resized = self.pos_peak.len() != frame.bins.len();
        let mut peaks: Vec<Level> = Vec::new();
        let mut sums: Vec<Option<i128>> = Vec::new();
        let mut i: usize = 0;
        let ghost before = *self;
        while i < frame.bins.len()
            invariant
                i <= frame.bins@.len(),
                *self == before,
                before.valid(),
                before.frames < u64::MAX,
                resized == before.resized(*frame),
                peaks@.len() == i,
                sums@.len() == i,
                forall|k: int|
                    0 <= k < i ==> #[trigger] peaks@[k] == level::higher(
                        before.peak_before(*frame, k),
                        frame.bins@[k],
                    ),
                forall|k: int|
                    0 <= k < i ==> #[trigger] sums@[k] == plus(
                        before.sum_before(*frame, k),
                        frame.bins@[k],
                    ),
                forall|k: int|
                    0 <= k < i ==> (#[trigger] sums@[k] matches Some(s) ==> i64::MIN * (
                    before.frames + 1) <= s <= i64::MAX * (before.frames + 1)),
            decreases frame.bins@.len() - i,
        {
            let level: Level = frame.bins[i];
            let (peak, sum): (Level, Option<i128>) = if resized {
                (None, Some(0))
            } else {
                (self.pos_peak[i], self.pos_sum[i])
            };
            peaks.push(level::max_level(peak, level));
            let next: Option<i128> = match (sum, level) {
                (Some(s), Some(l)) => Some(s + l as i128),
                _ => None,
            };
            sums.push(next);
            i += 1;
        }
        if resized {
            self.pos_rate_hz = frame.sample_rate_hz;
        }
        self.pos_peak = peaks;
        self.pos_sum = sums;
        self.frames = self.frames + 1;
    }

    /// Records the present position, where it saw a spectrum.
    pub fn finish_position(&mut self, hz: u64)
        requires
            old(self).valid(),
            hz <= 0x1000_0000_0000_0000,
            -0x1000_0000_0000_0000 <= old(self).pos_rate_hz <= 0x1000_0000_0000_0000,
        ensures
            final(self).valid(),
            final(self).was_active == old(self).was_active,
            final(self).saved_rx_enabled == old(self).saved_rx_enabled,
            final(self).cycle_start_ms == old(self).cycle_start_ms,
            final(self).config == old(self).config,
            final(self).rate_hz == old(self).rate_hz,
            position_told(*old(self), hz, *final(self)),
    {
        let ghost before = *self;
        let n: usize = if self.frames > 0 {
            self.pos_peak.len()
        } else {
            0
        };
        let ghost from = self.freq_hz@.len() as int;
        let mut j: usize = 0;
        while j < n
            invariant
                j <= n,
                n == if before.frames > 0 {
                    before.pos_peak@.len() as int
                } else {
                    0
                },
                before.valid(),
                hz <= 0x1000_0000_0000_0000,
                -0x1000_0000_0000_0000 <= before.pos_rate_hz <= 0x1000_0000_0000_0000,
                from == before.freq_hz@.len(),
                self.was_active == before.was_active,
                self.saved_rx_enabled == before.saved_rx_enabled,
                self.cycle_start_ms == before.cycle_start_ms,
                self.config == before.config,
                self.rate_hz == before.rate_hz,
                self.pos_peak == before.pos_peak,
                self.pos_sum == before.pos_sum,
                self.pos_rate_hz == before.pos_rate_hz,
                self.frames == before.frames,
                self.freq_hz@.len() == from + j,
                self.peak@.len() == from + j,
                self.mean@.len() == from + j,
                self.freq_hz@.take(from) == before.freq_hz@,
                self.peak@.take(from) == before.peak@,
                self.mean@.take(from) == before.mean@,
                forall|k: int|
                    0 <= k < j ==> #[trigger] self.freq_hz@[from + k] == bin_hz(
                        hz,
                        before.pos_rate_hz,
                        n as int,
                        k,
                    ),
                forall|k: int|
                    0 <= k < j ==> #[trigger] self.peak@[from + k] == before.pos_peak@[k],
                forall|k: int|
                    0 <= k < j ==> #[trigger] self.mean@[from + k] == mean_of(
                        before.pos_sum@[k],
                        before.frames,
                    ),
            decreases n - j,
        {
            let rate: i128 = self.pos_rate_hz as i128;
            let count: i128 = n as i128;
            proof {
                assert(0 <= count * hz <= 0x1000_0000 * 0x1000_0000_0000_0000) by (nonlinear_arith)
                    requires
                        0 <= count <= 0x1000_0000,
                        0 <= hz <= 0x1000_0000_0000_0000,
                ;
                assert(-0x1000_0000 * 0x1000_0000_0000_0000 <= count * rate <= 0x1000_0000
                    * 0x1000_0000_0000_0000) by (nonlinear_arith)
                    requires
                        0 <= count <= 0x1000_0000,
                        -0x1000_0000_0000_0000 <= rate <= 0x1000_0000_0000_0000,
                ;
                assert(-0x1000_0000 * 0x1000_0000_0000_0000 <= j * rate <= 0x1000_0000
                    * 0x1000_0000_0000_0000) by (nonlinear_arith)
                    requires
                        0 <= j <= 0x1000_0000,
                        -0x1000_0000_0000_0000 <= rate <= 0x1000_0000_0000_0000,
                ;
                assert(2 * n * hz == 2 * (n * hz)) by (nonlinear_arith);
            }
            let twice: i128 = 2 * (count * (hz as i128)) - count * rate + 2 * ((j as i128) * rate);
            let at: u64 = if twice < 0 {
                0
            } else {
                proof {
                    let q = twice as int / (2 * count) as int;
                    assert(0 <= q <= 0x1000_0000_0000_0000 * 2) by (nonlinear_arith)
                        requires
                            q == twice as int / (2 * count) as int,
                            0 <= twice,
                            twice == 2 * (count * hz) - count * rate + 2 * (j * rate),
                            0 < count,
                            0 <= j < count,
                            hz <= 0x1000_0000_0000_0000,
                            -0x1000_0000_0000_0000 <= rate <= 0x1000_0000_0000_0000,
                    ;
                }
                (twice / (2 * count)) as u64
            };
            let mean: Level = match self.pos_sum[j] {
                Some(s) => {
                    proof {
                        level::lemma_rounded_between(
                            s as int,
                            before.frames as int,
                            i64::MIN as int,
                            i64::MAX as int,
                        );
                    }
                    Some(level::round_div(s, self.frames as u128) as i64)
                },
                None => None,
            };
            let peak: Level = self.pos_peak[j];
            let ghost f0 = self.freq_hz@;
            let ghost p0 = self.peak@;
            let ghost m0 = self.mean@;
            self.freq_hz.push(at);
            self.peak.push(peak);
            self.mean.push(mean);
            assert(self.freq_hz@.take(from) == f0.take(from));
            assert(self.peak@.take(from) == p0.take(from));
            assert(self.mean@.take(from) == m0.take(from));
            j += 1;
        }
        assert(before.freq_hz@.take(from) == before.freq_hz@);
    }

    /// Publishes the pass, where the sweep is still wanted and saw anything.
    pub fn finish_cycle(&mut self, sweep: &mut SweepState, positions: usize, now_ms: u64)
        requires
            old(self).valid(),
            old(sweep).cycle_count < u64::MAX,
            old(self).cycle_start_ms <= now_ms,
        ensures
            final(self).valid(),
            final(self).was_active == old(self).was_active,
            final(self).saved_rx_enabled == old(self).saved_rx_enabled,
            pass_told(*old(self), *old(sweep), positions, now_ms, *final(sweep)),
    {
        if !sweep.active || self.freq_hz.len() == 0 {
            return;
        }
        let took: u64 = now_ms - self.cycle_start_ms;
        sweep.cycle_count = sweep.cycle_count + 1;
        sweep.cycle_duration_ms = took;
        sweep.positions_done = positions;
        let mut freq_hz: Vec<u64> = Vec::new();
        let mut peak: Vec<Level> = Vec::new();
        let mut mean: Vec<Level> = Vec::new();
        std::mem::swap(&mut freq_hz, &mut self.freq_hz);
        std::mem::swap(&mut peak, &mut self.peak);
        std::mem::swap(&mut mean, &mut self.mean);
        sweep.current_frame = Some(
            SweepFrame {
                start_hz: self.config.start_hz,
                stop_hz: self.config.stop_hz,
                freq_hz,
                peak,
                mean,
                timestamp_ms: now_ms,
                cycle_count: sweep.cycle_count,
                cycle_duration_ms: took,
            },
        );
    }
}

/// The bins of a position lie around where it was tuned, from half a rate below it up in
/// steps of the rate over their number, each rounded down to whole hertz. With an even
/// number of them the middle one is the tuned frequency itself.
pub proof fn law_bins_lie_around_the_tuned_frequency(hz: u64, rate_hz: i64, n: int, j: int)
    requires
        0 < n,
        0 <= j < n,
        0 < rate_hz <= 2 * hz,
    ensures
        ({
            let at = bin_hz(hz, rate_hz, n, j);
            let above_edge = 2 * at - (2 * hz - rate_hz);
            &&& 2 * (j * rate_hz) - 2 * n < above_edge * n <= 2 * (j * rate_hz)
            &&& 2 * at <= 2 * hz + rate_hz
            &&& 2 * at >= 2 * hz - rate_hz - 1
            &&& 2 * j == n ==> at == hz
            &&& j == 0 ==> at == (2 * hz - rate_hz) / 2
        }),
{
    let twice = 2 * n * hz - n * rate_hz + 2 * (j * rate_hz);
    let edge = 2 * hz - rate_hz;
    assert(twice == n * edge + 2 * (j * rate_hz)) by (nonlinear_arith)
        requires
            twice == 2 * n * hz - n * rate_hz + 2 * (j * rate_hz),
            edge == 2 * hz - rate_hz,
    ;
    assert(0 <= n * edge && 0 <= j * rate_hz <= n * rate_hz) by (nonlinear_arith)
        requires
            0 <= edge,
            0 < n,
            0 <= j < n,
            0 < rate_hz,
    ;
    let at = bin_hz(hz, rate_hz, n, j);
    vstd::arithmetic::div_mod::lemma_fundamental_div_mod(twice, 2 * n);
    vstd::arithmetic::div_mod::lemma_mod_bound(twice, 2 * n);
    assert((2 * n) * at == 2 * (at * n)) by (nonlinear_arith);
    assert((2 * at - edge) * n == 2 * (at * n) - n * edge) by (nonlinear_arith);
    assert(2 * at <= 2 * hz + rate_hz) by (nonlinear_arith)
        requires
            (2 * at - edge) * n <= 2 * (j * rate_hz),
            j * rate_hz <= n * rate_hz,
            edge == 2 * hz - rate_hz,
            0 < n,
    ;
    assert(2 * at >= edge - 1) by (nonlinear_arith)
        requires
            2 * (j * rate_hz) - 2 * n < (2 * at - edge) * n,
            0 <= j * rate_hz,
            0 < n,
    ;
    if 2 * j == n {
        assert(2 * (j * rate_hz) == n * rate_hz) by (nonlinear_arith)
            requires
                2 * j == n,
        ;
        assert(twice == (2 * n) * hz) by (nonlinear_arith)
            requires
                twice == 2 * n * hz - n * rate_hz + 2 * (j * rate_hz),
                2 * (j * rate_hz) == n * rate_hz,
        ;
        vstd::arithmetic::div_mod::lemma_fundamental_div_mod_converse(
            twice,
            2 * n,
            hz as int,
            0,
        );
    }
    if j == 0 {
        assert(j * rate_hz == 0);
        assert(at == edge / 2) by (nonlinear_arith)
            requires
                -2 * n < (2 * at - edge) * n <= 0,
                0 < n,
        ;
    }
}

/// The bins of a position ascend, whatever the rate.
pub proof fn law_bins_ascend(hz: u64, rate_hz: i64, n: int, j: int)
    requires
        0 <= j,
        j + 1 < n,
        0 < rate_hz,
    ensures
        0 <= bin_hz(hz, rate_hz, n, j) <= bin_hz(hz, rate_hz, n, j + 1),
{
    let a = 2 * n * hz - n * rate_hz + 2 * (j * rate_hz);
    let b = 2 * n * hz - n * rate_hz + 2 * ((j + 1) * rate_hz);
    assert((j + 1) * rate_hz == j * rate_hz + rate_hz) by (nonlinear_arith);
    if a >= 0 {
        vstd::arithmetic::div_mod::lemma_div_is_ordered(a, b, 2 * n);
        vstd::arithmetic::div_mod::lemma_div_pos_is_pos(a, 2 * n);
    }
    if b >= 0 {
        vstd::arithmetic::div_mod::lemma_div_pos_is_pos(b, 2 * n);
    }
}

/// What a bin has seen of levels that came one after the other: its peak and its sum.
pub open spec fn bin_after(levels: Seq<i64>) -> (Level, Option<i128>)
    decreases levels.len(),
{
    if levels.len() == 0 {
        (None, Some(0i128))
    } else {
        let (peak, sum) = bin_after(levels.drop_last());
        let level: Level = Some(levels.last());
        (level::higher(peak, level), plus(sum, level))
    }
}

/// The peak of a bin is the greatest level it has seen, and its mean is their sum over
/// their number, to the nearest micro-decibel.
pub proof fn law_a_bin_records_its_peak_and_mean(levels: Seq<i64>)
    requires
        0 < levels.len() <= u64::MAX,
    ensures
        ({
            let (peak, sum) = bin_after(levels);
            let n = levels.len() as int;
            let added = levels.fold_left(0int, |a: int, l: i64| a + l);
            &&& peak matches Some(p)
            &&& levels.contains(p)
            &&& forall|i: int| 0 <= i < n ==> #[trigger] levels[i] <= p
            &&& mean_of(sum, n as u64) matches Some(m)
            &&& -n <= 2 * (m * n - added) <= n
        }),
{
    lemma_bin_after(levels);
    let (peak, sum) = bin_after(levels);
    let n = levels.len() as int;
    let s = sum->Some_0 as int;
    level::law_rounded_is_nearest(s, n);
    level::lemma_rounded_between(s, n, i64::MIN as int, i64::MAX as int);
}

proof fn lemma_bin_after(levels: Seq<i64>)
    requires
        levels.len() <= u64::MAX,
    ensures
        ({
            let (peak, sum) = bin_after(levels);
            let n = levels.len() as int;
            let added = levels.fold_left(0int, |a: int, l: i64| a + l);
            &&& sum is Some && sum->Some_0 == added
            &&& i64::MIN * n <= added <= i64::MAX * n
            &&& n == 0 ==> peak is None
            &&& n > 0 ==> peak is Some && levels.contains(peak->Some_0)
            &&& forall|i: int| 0 <= i < n ==> #[trigger] levels[i] <= peak->Some_0
        }),
    decreases levels.len(),
{
    if levels.len() > 0 {
        let head = levels.drop_last();
        lemma_bin_after(head);
        let (peak, sum) = bin_after(levels);
        assert(levels.fold_left(0int, |a: int, l: i64| a + l) == head.fold_left(
            0int,
            |a: int, l: i64| a + l,
        ) + levels.last());
        assert forall|i: int| 0 <= i < levels.len() implies #[trigger] levels[i]
            <= peak->Some_0 by {
            if i < head.len() {
                assert(head[i] == levels[i]);
            }
        }
        if head.len() > 0 && peak == bin_after(head).0 {
            let k = choose|k: int| 0 <= k < head.len() && head[k] == peak->Some_0;
            assert(levels[k] == peak->Some_0);
        } else {
            assert(levels[levels.len() - 1] == peak->Some_0);
        }
    }
}

/// A bin that could not be measured once has no mean, and its peak is what it saw else.
pub proof fn law_a_missing_level_leaves_no_mean(sum: Option<i128>, level: Level, frames: u64)
    ensures
        mean_of(plus(sum, None), frames) is None,
        mean_of(plus(None, level), frames) is None,
{
}

/// A spectrum counts where it is of the tuned frequency and younger than a fifth of a
/// second.
pub proof fn law_only_fresh_spectra_of_the_position_count(frame: FftFrame, hz: u64, now_ms: u64)
    ensures
        counts(frame, hz, now_ms) <==> frame.center_freq_hz == hz && now_ms
            < frame.timestamp_ms + 200,
{
}

/// A spectrum of another width starts the position again, and one of the same width
/// goes on with what was seen.
pub proof fn law_another_width_starts_again(b: BandSweep, frame: FftFrame, i: int)
    requires
        0 <= i < frame.bins@.len(),
    ensures
        b.pos_peak@.len() != frame.bins@.len() ==> b.peak_before(frame, i) is None && b.sum_before(
            frame,
            i,
        ) == Some(0i128),
        b.pos_peak@.len() == frame.bins@.len() ==> b.peak_before(frame, i) == b.pos_peak@[i]
            && b.sum_before(frame, i) == b.pos_sum@[i],
{
}

/// A sweep from its start to its end: it notes where the radio was, receives while it
/// goes on, and wherever the radio was walked to meanwhile it goes back, unless the user
/// sent it somewhere; there it stays, and receives.
pub proof fn law_a_sweep_ends_where_it_began(
    before: BandSweep,
    sweep: SweepState,
    radio: RadioState,
    positions: usize,
    then_ms: u64,
    running: BandSweep,
    sweep_running: SweepState,
    radio_running: RadioState,
    first: (TopMove, Option<SweepNote>),
    ending: BandSweep,
    sweep_ending: SweepState,
    walked: RadioState,
    now_ms: u64,
    after: BandSweep,
    sweep_after: SweepState,
    radio_after: RadioState,
    second: (TopMove, Option<SweepNote>),
)
    requires
        !before.was_active,
        sweep.active,
        topped(
            before,
            sweep,
            radio,
            positions,
            then_ms,
            running,
            sweep_running,
            radio_running,
            first,
        ),
        ending.was_active == running.was_active,
        ending.saved_rx_enabled == running.saved_rx_enabled,
        sweep_ending.pre_sweep_hz == sweep_running.pre_sweep_hz,
        !sweep_ending.active,
        topped(
            ending,
            sweep_ending,
            walked,
            positions,
            now_ms,
            after,
            sweep_after,
            radio_after,
            second,
        ),
    ensures
        radio_running.rx_enabled && radio_running.frequency == radio.frequency,
        sweep_running.pre_sweep_hz == Some(radio.frequency),
        sweep_running.cycle_count == 0 && sweep_running.positions_done == 0
            && sweep_running.positions_total == positions,
        first.1 is Some,
        sweep_ending.pending_tune is None ==> radio_after.frequency == radio.frequency
            && radio_after.rx_enabled == radio.rx_enabled && second.1 == Some(SweepNote::Stopped),
        sweep_ending.pending_tune matches Some(hz) ==> radio_after.frequency == hz
            && radio_after.rx_enabled && second.1 == Some(SweepNote::Tuned(hz)),
        second.0 matches TopMove::Restore { tune_hz, sleep_ms } && tune_hz == radio_after.frequency
            && sleep_ms == 100,
        sweep_after.pre_sweep_hz is None && sweep_after.pending_tune is None,
        !after.was_active,
{
}

/// A pass starts empty, with the band and the rate of that moment; where there is nothing
/// to visit it waits instead, and where no sweep is wanted nothing is done.
pub proof fn law_a_pass_starts_empty(
    before: BandSweep,
    sweep: SweepState,
    radio: RadioState,
    positions: usize,
    now_ms: u64,
    after: BandSweep,
    sweep_after: SweepState,
    radio_after: RadioState,
    r: (TopMove, Option<SweepNote>),
)
    requires
        topped(
            before,
            sweep,
            radio,
            positions,
            now_ms,
            after,
            sweep_after,
            radio_after,
            r,
        ),
    ensures
        r.0 is Cycle <==> sweep.active && positions > 0,
        r.0 is Cycle ==> after.freq_hz@.len() == 0 && after.cycle_start_ms == now_ms
            && after.config == sweep.config,
        sweep.active && positions == 0 ==> r.0 == TopMove::Sleep(200),
        !sweep.active && !before.was_active ==> r.0 == TopMove::Sleep(100) && radio_after == radio
            && sweep_after == sweep,
        radio_after.frequency != radio.frequency ==> r.0 is Restore,
{
}

/// A position is tuned to as near as the limits let it, and nothing of the position before
/// is left; a sweep that is no longer wanted leaves the radio alone.
pub proof fn law_a_position_is_tuned_to(
    before: BandSweep,
    sweep: SweepState,
    radio: RadioState,
    index: usize,
    wanted_hz: u64,
    min_hz: u64,
    max_hz: u64,
    after: BandSweep,
    sweep_after: SweepState,
    radio_after: RadioState,
    r: Option<u64>,
)
    requires
        min_hz <= max_hz,
        positioned(
            before,
            sweep,
            radio,
            index,
            wanted_hz,
            min_hz,
            max_hz,
            after,
            sweep_after,
            radio_after,
            r,
        ),
    ensures
        r is Some <==> sweep.active,
        r matches Some(hz) ==> {
            &&& min_hz <= hz <= max_hz
            &&& min_hz <= wanted_hz <= max_hz ==> hz == wanted_hz
            &&& wanted_hz < min_hz ==> hz == min_hz
            &&& max_hz < wanted_hz ==> hz == max_hz
            &&& radio_after.frequency == hz && sweep_after.current_hz == hz
            &&& sweep_after.positions_done == index
            &&& after.frames == 0 && after.pos_peak@.len() == 0
        },
        r is None ==> radio_after == radio && sweep_after == sweep,
        after.freq_hz == before.freq_hz && after.peak == before.peak && after.mean == before.mean,
{
}

/// A pass that ends is shown as it was measured, over the band it was started with, and
/// counts as one more; one that saw nothing, or that is no longer wanted, changes nothing.
pub proof fn law_a_pass_is_shown_as_it_was_measured(
    before: BandSweep,
    sweep: SweepState,
    positions: usize,
    now_ms: u64,
    sweep_after: SweepState,
)
    requires
        pass_told(before, sweep, positions, now_ms, sweep_after),
        sweep.cycle_count < u64::MAX,
        before.cycle_start_ms <= now_ms,
    ensures
        !sweep.active || before.freq_hz@.len() == 0 ==> sweep_after == sweep,
        sweep.active && before.freq_hz@.len() > 0 ==> {
            &&& sweep_after.cycle_count == sweep.cycle_count + 1
            &&& before.cycle_start_ms + sweep_after.cycle_duration_ms == now_ms
            &&& sweep_after.positions_done == positions
            &&& sweep_after.config == sweep.config && sweep_after.generation == sweep.generation
            &&& sweep_after.pre_sweep_hz == sweep.pre_sweep_hz && sweep_after.active
            &&& sweep_after.current_frame matches Some(f) && {
                &&& f.start_hz == before.config.start_hz && f.stop_hz == before.config.stop_hz
                &&& f.freq_hz@ == before.freq_hz@ && f.peak@ == before.peak@ && f.mean@
                    == before.mean@
                &&& f.cycle_count == sweep_after.cycle_count
                &&& f.timestamp_ms == now_ms
            }
        },
{
}

/// A position adds its bins behind those of the positions before it and leaves those as
/// they were; a position at which no spectrum was taken adds none.
pub proof fn law_positions_stand_one_behind_the_other(
    before: BandSweep,
    hz: u64,
    after: BandSweep,
    i: int,
)
    requires
        position_told(before, hz, after),
        before.valid(),
        after.valid(),
        0 <= i < before.freq_hz@.len(),
    ensures
        after.freq_hz@[i] == before.freq_hz@[i],
        after.peak@[i] == before.peak@[i],
        after.mean@[i] == before.mean@[i],
        before.frames == 0 ==> after.freq_hz@ == before.freq_hz@,
        before.frames > 0 ==> after.freq_hz@.len() == before.freq_hz@.len()
            + before.pos_peak@.len(),
{
    let from = before.freq_hz@.len() as int;
    assert(after.freq_hz@.take(from)[i] == after.freq_hz@[i]);
    assert(after.peak@.take(from)[i] == after.peak@[i]);
    assert(after.mean@.take(from)[i] == after.mean@[i]);
    if before.frames == 0 {
        assert(after.freq_hz@.take(from) == after.freq_hz@);
    }
}

/// A bin that a position adds stands where its spectrum had it: from half a rate below the
/// tuned frequency on, in the middle at that frequency itself, with the peak that was seen.
pub proof fn law_a_position_tells_its_bins(before: BandSweep, hz: u64, after: BandSweep, j: int)
    requires
        position_told(before, hz, after),
        before.frames > 0,
        0 <= j < before.pos_peak@.len(),
        0 < before.pos_rate_hz <= 2 * hz,
    ensures
        ({
            let from = before.freq_hz@.len() as int;
            let n = before.pos_peak@.len() as int;
            let rate = before.pos_rate_hz as int;
            let at = after.freq_hz@[from + j] as int;
            &&& at == bin_hz(hz, before.pos_rate_hz, n, j)
            &&& 2 * hz - rate - 1 <= 2 * at <= 2 * hz + rate
            &&& 2 * j == n ==> at == hz
            &&& after.peak@[from + j] == before.pos_peak@[j]
            &&& after.mean@[from + j] == mean_of(before.pos_sum@[j], before.frames)
        }),
{
    let n = before.pos_peak@.len() as int;
    let from = before.freq_hz@.len() as int;
    law_bins_lie_around_the_tuned_frequency(hz, before.pos_rate_hz, n, j);
    assert(after.freq_hz@[from + j] == bin_hz(hz, before.pos_rate_hz, n, j));
    assert(after.peak@[from + j] == before.pos_peak@[j]);
    assert(after.mean@[from + j] == mean_of(before.pos_sum@[j], before.frames));
}

} // verus!
