//! What one display frame of the transform changes in the shared state.

use crate::level::Level;
use crate::state::waterfall;
use crate::state::waterfall::{BinAxis, FftFrame, WaterfallState, MAX_BINS};
use vstd::prelude::*;

verus! {

/// The drawn spectrum keeps pace with the visible waterfall: each of its lines
/// holds this many rows.
pub const ROWS_PER_WATERFALL_LINE: u32 = 2;

/// The drawn spectrum never gets older than this.
pub const SPECTRUM_STALE_GUARD_MS: u64 = 400;

/// When the drawn spectrum was last refreshed, and the rows since then.
#[derive(Clone, Copy, Debug, PartialEq, Eq, Structural)]
pub struct Pacing {
    pub rows_since_spectrum: u32,
    pub last_update_ms: u64,
}

impl Pacing {
    /// A spectrum that is due at once, or as soon as the clock allows.
    pub fn new(now_ms: u64) -> (p: Self)
        ensures
            p.rows_since_spectrum == 0,
            p.last_update_ms == if now_ms >= SPECTRUM_STALE_GUARD_MS {
                (now_ms - SPECTRUM_STALE_GUARD_MS) as u64
            } else {
                now_ms
            },
    {
        Pacing {
            rows_since_spectrum: 0,
            last_update_ms: if now_ms >= SPECTRUM_STALE_GUARD_MS {
                now_ms - SPECTRUM_STALE_GUARD_MS
            } else {
                now_ms
            },
        }
    }

    /// Whether the spectrum is redrawn: there is none yet, a line of the
    /// waterfall has gone by, or it would get too old.
    pub open spec fn is_due(self, has_frame: bool, now_ms: u64) -> bool {
        !has_frame || self.rows_since_spectrum >= ROWS_PER_WATERFALL_LINE || now_ms
            - self.last_update_ms >= SPECTRUM_STALE_GUARD_MS
    }

    pub fn due(&self, has_frame: bool, now_ms: u64) -> (r: bool)
        ensures
            r == self.is_due(has_frame, now_ms),
    {
        !has_frame || self.rows_since_spectrum >= ROWS_PER_WATERFALL_LINE || (now_ms
            >= self.last_update_ms && now_ms - self.last_update_ms >= SPECTRUM_STALE_GUARD_MS)
    }

    /// Notes that the spectrum was redrawn.
    pub fn mark(&mut self, now_ms: u64)
        ensures
            *final(self) == (Pacing { rows_since_spectrum: 0, last_update_ms: now_ms }),
    {
        self.rows_since_spectrum = 0;
        self.last_update_ms = now_ms;
    }
}

/// A mark on the spectrum.
pub struct SpectrumMarker {
    pub freq_hz: u64,
    pub label: String,
    pub channel_bw_hz: Option<u64>,
    pub measured_bw_hz: Option<u64>,
}

/// What the panels show of the signal.
#[derive(Clone, Copy, Debug, PartialEq, Eq, Structural)]
pub struct Signal {
    pub peak_to_nf: i128,
    pub channel_power: Level,
    pub occupied_bw_hz: u64,
    /// Which modulation was recognised, by its place in the list of them.
    pub modulation: Option<u8>,
    pub acpr_lower: Level,
    pub acpr_upper: Level,
    pub adj_carrier: Level,
    pub acpr_offset_hz: u64,
}

/// What was measured of the signal in one frame.
#[derive(Clone, Copy, Debug, PartialEq, Eq, Structural)]
pub struct Reading {
    pub noise_floor: Level,
    pub signal: Signal,
}

/// One frame of the transform.
pub struct Snapshot {
    pub reading: Reading,
    pub smoothed: Vec<Level>,
    pub peak: Vec<Level>,
    /// The powers of the bins in one linear unit.
    pub linear: Vec<u64>,
    pub center_freq_hz: u64,
    pub sample_rate_hz: i64,
    pub enbw_hz: u64,
}

impl Snapshot {
    /// A frame whose axis can be computed with.
    pub open spec fn plausible(self) -> bool {
        &&& self.linear@.len() <= MAX_BINS
        &&& self.center_freq_hz <= 0x1fff_ffff_ffff_ffff
        &&& -0x2000_0000_0000_0000 <= self.sample_rate_hz <= 0x2000_0000_0000_0000
    }
}

/// Powers added up.
pub open spec fn power_of(s: Seq<u64>) -> int
    decreases s.len(),
{
    if s.len() == 0 {
        0
    } else {
        power_of(s.drop_last()) + s.last()
    }
}

/// The last of the first `k` bins up to which less than `limit` two-hundredths of
/// the power have come, or -1 where there is none.
pub open spec fn last_below(s: Seq<u64>, limit: int, k: int) -> int
    decreases k,
{
    if k <= 0 {
        -1
    } else if 200 * power_of(s.take(k)) < limit {
        k - 1
    } else {
        last_below(s, limit, k - 1)
    }
}

/// The width in bins between the points where half a percent and all but half a
/// percent of the power have come. Each point lies in the bin after the last one
/// below it.
pub open spec fn occupied_bins(s: Seq<u64>) -> int {
    let total = power_of(s);
    let low = last_below(s, total, s.len() as int);
    let high = last_below(s, 199 * total, s.len() as int);
    high - low + 1
}

/// The first bin of a channel, inside the frame.
pub open spec fn channel_first(n: int, span_hz: int, left_half_hz: int, marker_hz: int, bw_hz: int) -> int {
    let below = (2 * marker_hz - bw_hz - left_half_hz) * n;
    if below < 0 {
        0
    } else {
        below / (2 * span_hz)
    }
}

/// The last bin of a channel, inside the frame.
pub open spec fn channel_last(n: int, span_hz: int, left_half_hz: int, marker_hz: int, bw_hz: int) -> int {
    let above = (2 * marker_hz + bw_hz - left_half_hz) * n;
    let ceiling = (above + 2 * span_hz - 1) / (2 * span_hz);
    if ceiling > n - 1 {
        n - 1
    } else {
        ceiling
    }
}

/// The occupied bandwidth of a channel, or `None` where the frame cannot say: no
/// spectrum, a mark outside the span, a channel past its end, or no power in it.
pub open spec fn bandwidth_at(
    linear: Seq<u64>,
    span_hz: int,
    left_half_hz: int,
    marker_hz: int,
    bw_hz: int,
) -> Option<int> {
    let n = linear.len() as int;
    if n == 0 || span_hz <= 0 {
        None
    } else if 2 * marker_hz < left_half_hz || 2 * marker_hz > left_half_hz + 2 * span_hz {
        None
    } else {
        let first = channel_first(n, span_hz, left_half_hz, marker_hz, bw_hz);
        let last = channel_last(n, span_hz, left_half_hz, marker_hz, bw_hz);
        if first > last {
            None
        } else {
            let part = linear.subrange(first, last + 1);
            if power_of(part) <= 0 {
                None
            } else {
                Some(occupied_bins(part) * span_hz / n)
            }
        }
    }
}

/// The last bin below a limit is one of the bins.
proof fn lemma_last_below(s: Seq<u64>, limit: int, k: int)
    requires
        0 <= k <= s.len(),
    ensures
        -1 <= last_below(s, limit, k) < k || k == 0,
        -1 <= last_below(s, limit, k) < s.len() || s.len() == 0,
    decreases k,
{
    if k > 0 && !(200 * power_of(s.take(k)) < limit) {
        lemma_last_below(s, limit, k - 1);
    }
}

/// No bin has less than no power.
proof fn lemma_power(s: Seq<u64>)
    ensures
        0 <= power_of(s),
    decreases s.len(),
{
    if s.len() > 0 {
        lemma_power(s.drop_last());
    }
}

/// A higher limit is reached no earlier.
proof fn lemma_limits_keep_order(s: Seq<u64>, low: int, high: int, k: int)
    requires
        low <= high,
        0 <= k <= s.len(),
    ensures
        last_below(s, low, k) <= last_below(s, high, k),
    decreases k,
{
    if k > 0 {
        lemma_limits_keep_order(s, low, high, k - 1);
        lemma_last_below(s, low, k - 1);
    }
}

/// The occupied bandwidth is at least one bin and at most the channel.
pub proof fn law_occupied_fits_the_channel(s: Seq<u64>)
    requires
        s.len() > 0,
    ensures
        1 <= occupied_bins(s) <= s.len(),
{
    let total = power_of(s);
    let n = s.len() as int;
    lemma_power(s);
    lemma_limits_keep_order(s, total, 199 * total, n);
    lemma_last_below(s, total, n);
    assert(s.take(n) == s);
    lemma_last_below(s, 199 * total, n - 1);
}

/// A tone in one bin measures one bin, wherever in the channel it stands.
pub proof fn law_a_lone_tone_measures_one_bin(s: Seq<u64>, at: int)
    requires
        0 <= at < s.len(),
        s[at] > 0,
        forall|i: int| 0 <= i < s.len() && i != at ==> #[trigger] s[i] == 0,
    ensures
        occupied_bins(s) == 1,
{
    let n = s.len() as int;
    lemma_lone_tone(s, at, n);
    assert(s.take(n) == s);
    assert forall|k: int| 0 <= k <= n implies power_of(#[trigger] s.take(k)) == if k <= at {
        0
    } else {
        s[at] as int
    } by {
        lemma_lone_tone(s, at, k);
    }
    lemma_stops_before(s, power_of(s), at, n);
    lemma_stops_before(s, 199 * power_of(s), at, n);
}

/// The power of a lone tone comes all at once.
proof fn lemma_lone_tone(s: Seq<u64>, at: int, k: int)
    requires
        0 <= at < s.len(),
        forall|i: int| 0 <= i < s.len() && i != at ==> #[trigger] s[i] == 0,
        0 <= k <= s.len(),
    ensures
        power_of(s.take(k)) == if k <= at {
            0
        } else {
            s[at] as int
        },
    decreases k,
{
    if k > 0 {
        lemma_lone_tone(s, at, k - 1);
        assert(s.take(k).drop_last() == s.take(k - 1));
        assert(s.take(k).last() == s[k - 1]);
    }
}

/// Where the power comes all at once, the last bin below a limit is the one before.
proof fn lemma_stops_before(s: Seq<u64>, limit: int, at: int, k: int)
    requires
        0 <= at < k <= s.len(),
        0 < limit <= 200 * s[at],
        forall|i: int|
            0 <= i <= s.len() ==> power_of(#[trigger] s.take(i)) == if i <= at {
                0
            } else {
                s[at] as int
            },
    ensures
        last_below(s, limit, k) == at - 1,
    decreases k,
{
    assert(power_of(s.take(k)) == s[at] as int);
    if k - 1 > at {
        lemma_stops_before(s, limit, at, k - 1);
    } else {
        assert(power_of(s.take(at)) == 0);
        assert(last_below(s, limit, at) == at - 1);
    }
}

/// The occupied bandwidth inside one marker's channel. The left edge of the span
/// is given as twice its frequency.
pub fn marker_bandwidth_hz(
    linear: &[u64],
    span_hz: i64,
    left_half_hz: i64,
    marker_hz: i64,
    channel_bw_hz: u64,
) -> (r: Option<u64>)
    requires
        linear@.len() <= MAX_BINS,
        span_hz <= 0x2000_0000_0000_0000,
    ensures
        match r {
            Some(hz) => bandwidth_at(
                linear@,
                span_hz as int,
                left_half_hz as int,
                marker_hz as int,
                channel_bw_hz as int,
            ) == Some(hz as int),
            None => bandwidth_at(
                linear@,
                span_hz as int,
                left_half_hz as int,
                marker_hz as int,
                channel_bw_hz as int,
            ) is None,
        },
{
    let n: usize = linear.len();
    if n == 0 || span_hz <= 0 {
        return None;
    }
    let marker: i128 = 2 * (marker_hz as i128);
    let left: i128 = left_half_hz as i128;
    let wide: i128 = 2 * (span_hz as i128);
    if marker < left || marker > left + wide {
        return None;
    }
    let down: i128 = marker - channel_bw_hz as i128 - left;
    let up: i128 = marker + channel_bw_hz as i128 - left;
    proof {
        assert(-0x2_0000_0000_0000_0000 * 0x1000_0000 <= down * n <= 0x2_0000_0000_0000_0000
            * 0x1000_0000) by (nonlinear_arith)
            requires
                -0x2_0000_0000_0000_0000 <= down <= 0x2_0000_0000_0000_0000,
                0 <= n <= 0x1000_0000,
        ;
        assert(0 <= up * n <= 0x2_0000_0000_0000_0000 * 0x1000_0000) by (nonlinear_arith)
            requires
                0 <= up <= 0x2_0000_0000_0000_0000,
                0 <= n <= 0x1000_0000,
        ;
    }
    let below: i128 = down * (n as i128);
    let above: i128 = up * (n as i128);
    let first: i128 = if below < 0 {
        0
    } else {
        below / wide
    };
    let ceiling: i128 = (above + wide - 1) / wide;
    let last: i128 = if ceiling > n as i128 - 1 {
        n as i128 - 1
    } else {
        ceiling
    };
    proof {
        assert(below >= 0 ==> 0 <= below / wide) by (nonlinear_arith)
            requires
                0 < wide,
        ;
        assert(0 <= (above + wide - 1) / (wide as int)) by (nonlinear_arith)
            requires
                0 < wide,
                0 <= above,
        ;
        assert(first == channel_first(
            n as int,
            span_hz as int,
            left_half_hz as int,
            marker_hz as int,
            channel_bw_hz as int,
        ));
        assert(last == channel_last(
            n as int,
            span_hz as int,
            left_half_hz as int,
            marker_hz as int,
            channel_bw_hz as int,
        ));
    }
    if first > last {
        return None;
    }
    let from: usize = first as usize;
    let to: usize = last as usize + 1;
    let ghost part = linear@.subrange(first as int, last + 1);
    let mut total: u128 = 0;
    let mut i: usize = from;
    assert(part.take(0) == Seq::<u64>::empty());
    while i < to
        invariant
            from <= i <= to <= n,
            n == linear@.len() <= 0x1000_0000,
            part == linear@.subrange(from as int, to as int),
            total == power_of(part.take(i - from)),
            total <= (i - from) * 0xffff_ffff_ffff_ffff,
        decreases to - i,
    {
        assert(part.take(i - from + 1).drop_last() == part.take(i - from));
        total += linear[i] as u128;
        i += 1;
    }
    assert(part.take(to - from) == part);
    if total == 0 {
        return None;
    }
    let size: usize = to - from;
    let mut acc: u128 = 0;
    let mut low: usize = 0;
    let mut high: usize = 0;
    let mut k: usize = 0;
    while k < size
        invariant
            k <= size,
            size == to - from,
            from < to <= n,
            n == linear@.len() <= 0x1000_0000,
            part == linear@.subrange(from as int, to as int),
            total == power_of(part),
            total <= size * 0xffff_ffff_ffff_ffff,
            acc == power_of(part.take(k as int)),
            acc <= k * 0xffff_ffff_ffff_ffff,
            low <= high <= k,
            low == last_below(part, total as int, k as int) + 1,
            high == last_below(part, 199 * total as int, k as int) + 1,
        decreases size - k,
    {
        assert(part.take(k + 1).drop_last() == part.take(k as int));
        acc += linear[from + k] as u128;
        if 200 * acc < total {
            low = k + 1;
        }
        if 200 * acc < 199 * total {
            high = k + 1;
        }
        k += 1;
    }
    let bins: usize = high - low + 1;
    assert(bins == occupied_bins(part));
    proof {
        law_occupied_fits_the_channel(part);
        assert(0 <= bins * span_hz <= 0x1000_0000 * 0x2000_0000_0000_0000) by (nonlinear_arith)
            requires
                0 <= bins <= 0x1000_0000,
                0 <= span_hz <= 0x2000_0000_0000_0000,
        ;
        assert(0 <= bins * span_hz / (n as int) <= span_hz) by (nonlinear_arith)
            requires
                0 <= bins <= n,
                0 < n,
                0 <= span_hz,
        ;
    }
    Some(((bins as i128) * (span_hz as i128) / (n as i128)) as u64)
}

/// What a frame says of a marker's channel.
pub open spec fn marker_answer(m: SpectrumMarker, snap: Snapshot) -> Option<int> {
    match m.channel_bw_hz {
        Some(bw) => bandwidth_at(
            snap.linear@,
            snap.sample_rate_hz as int,
            2 * snap.center_freq_hz - snap.sample_rate_hz,
            m.freq_hz as int,
            bw as int,
        ),
        None => None,
    }
}

/// Measures the bandwidth of every marker's channel. Every marker comes away with
/// what this frame says, or with nothing.
pub fn update_marker_bandwidths(markers: &mut Vec<SpectrumMarker>, snap: &Snapshot)
    requires
        snap.plausible(),
        forall|i: int| 0 <= i < old(markers)@.len() ==> #[trigger] old(markers)@[i].freq_hz <= i64::MAX,
    ensures
        final(markers)@.len() == old(markers)@.len(),
        forall|i: int|
            0 <= i < old(markers)@.len() ==> {
                let m = #[trigger] final(markers)@[i];
                &&& m.freq_hz == old(markers)@[i].freq_hz
                &&& m.label == old(markers)@[i].label
                &&& m.channel_bw_hz == old(markers)@[i].channel_bw_hz
                &&& match m.measured_bw_hz {
                    Some(hz) => marker_answer(old(markers)@[i], *snap) == Some(hz as int),
                    None => marker_answer(old(markers)@[i], *snap) is None,
                }
            },
{
    let ghost before = markers@;
    let left: i64 = 2 * (snap.center_freq_hz as i64) - snap.sample_rate_hz;
    let mut i: usize = 0;
    while i < markers.len()
        invariant
            i <= markers@.len(),
            markers@.len() == before.len(),
            snap.plausible(),
            left == 2 * snap.center_freq_hz - snap.sample_rate_hz,
            forall|k: int| 0 <= k < before.len() ==> #[trigger] before[k].freq_hz <= i64::MAX,
            forall|k: int| i <= k < before.len() ==> #[trigger] markers@[k] == before[k],
            forall|k: int|
                0 <= k < i ==> {
                    let m = #[trigger] markers@[k];
                    &&& m.freq_hz == before[k].freq_hz
                    &&& m.label == before[k].label
                    &&& m.channel_bw_hz == before[k].channel_bw_hz
                    &&& match m.measured_bw_hz {
                        Some(hz) => marker_answer(before[k], *snap) == Some(hz as int),
                        None => marker_answer(before[k], *snap) is None,
                    }
                },
        decreases markers@.len() - i,
    {
        let freq: u64 = markers[i].freq_hz;
        assert(markers@[i as int] == before[i as int]);
        let answer: Option<u64> = match markers[i].channel_bw_hz {
            Some(bw) => marker_bandwidth_hz(
                snap.linear.as_slice(),
                snap.sample_rate_hz,
                left,
                freq as i64,
                bw,
            ),
            None => None,
        };
        markers[i].measured_bw_hz = answer;
        i += 1;
    }
}

/// Whether a frame is the one of a snapshot.
pub open spec fn shows(frame: FftFrame, snap: Snapshot, now_ms: u64) -> bool {
    &&& frame.bins@ == snap.smoothed@
    &&& frame.peak_hold@ == snap.peak@
    &&& frame.noise_floor == snap.reading.noise_floor
    &&& frame.center_freq_hz == snap.center_freq_hz
    &&& frame.axis_start_half_hz == 2 * snap.center_freq_hz - snap.sample_rate_hz
    &&& frame.sample_rate_hz == snap.sample_rate_hz
    &&& frame.timestamp_ms == now_ms
    &&& frame.peak_to_nf == snap.reading.signal.peak_to_nf
    &&& frame.channel_power == snap.reading.signal.channel_power
    &&& frame.occupied_bw_hz == snap.reading.signal.occupied_bw_hz
    &&& frame.enbw_hz == snap.enbw_hz
    &&& frame.bin_axis == BinAxis::FftBins
}

/// The frame of a snapshot.
pub fn refresh_spectrum(snap: &Snapshot, now_ms: u64) -> (frame: FftFrame)
    requires
        snap.plausible(),
    ensures
        shows(frame, *snap, now_ms),
{
    FftFrame {
        bins: waterfall::copied_levels(snap.smoothed.as_slice()),
        peak_hold: waterfall::copied_levels(snap.peak.as_slice()),
        noise_floor: snap.reading.noise_floor,
        center_freq_hz: snap.center_freq_hz,
        axis_start_half_hz: 2 * (snap.center_freq_hz as i64) - snap.sample_rate_hz,
        sample_rate_hz: snap.sample_rate_hz,
        timestamp_ms: now_ms,
        peak_to_nf: snap.reading.signal.peak_to_nf,
        channel_power: snap.reading.signal.channel_power,
        occupied_bw_hz: snap.reading.signal.occupied_bw_hz,
        enbw_hz: snap.enbw_hz,
        bin_axis: BinAxis::FftBins,
    }
}

/// Rows since the spectrum was drawn, once a frame has gone into the waterfall.
pub open spec fn rows_with(pacing: Pacing, made_row: bool) -> int {
    pacing.rows_since_spectrum + if made_row {
        1int
    } else {
        0int
    }
}

/// Writes one display frame back: the reading, the markers, the waterfall, and
/// the drawn spectrum where it is due.
pub fn publish(
    view: &mut WaterfallState,
    signal: &mut Signal,
    markers: &mut Vec<SpectrumMarker>,
    pacing: &mut Pacing,
    snap: &Snapshot,
    now_ms: u64,
)
    requires
        old(view).buffer.valid(),
        snap.plausible(),
        old(pacing).rows_since_spectrum < u32::MAX,
        forall|i: int| 0 <= i < old(markers)@.len() ==> #[trigger] old(markers)@[i].freq_hz <= i64::MAX,
    ensures
        final(view).buffer.valid(),
        *final(signal) == snap.reading.signal,
        final(markers)@.len() == old(markers)@.len(),
        forall|i: int|
            0 <= i < old(markers)@.len() ==> {
                let m = #[trigger] final(markers)@[i];
                &&& m.freq_hz == old(markers)@[i].freq_hz
                &&& m.label == old(markers)@[i].label
                &&& m.channel_bw_hz == old(markers)@[i].channel_bw_hz
                &&& match m.measured_bw_hz {
                    Some(hz) => marker_answer(old(markers)@[i], *snap) == Some(hz as int),
                    None => marker_answer(old(markers)@[i], *snap) is None,
                }
            },
        ({
            let made = old(view).buffer.completes(snap.smoothed@);
            let counted = Pacing {
                rows_since_spectrum: rows_with(*old(pacing), made) as u32,
                ..*old(pacing)
            };
            if counted.is_due(old(view).last_fft is Some, now_ms) {
                &&& *final(pacing) == (Pacing { rows_since_spectrum: 0, last_update_ms: now_ms })
                &&& final(view).last_fft matches Some(frame)
                &&& shows(frame, *snap, now_ms)
            } else {
                &&& *final(pacing) == counted
                &&& final(view).last_fft == old(view).last_fft
            }
        }),
        final(view).buffer.after_push(old(view).buffer, snap.smoothed@, now_ms),
        final(view).db_min == old(view).db_min,
        final(view).db_max == old(view).db_max,
        final(view).scroll_offset == old(view).scroll_offset,
        final(view).cursor_freq == old(view).cursor_freq,
        final(view).hz_zoom == old(view).hz_zoom,
        final(view).palette == old(view).palette,
{
    *signal = snap.reading.signal;
    update_marker_bandwidths(markers, snap);
    let made = view.buffer.push(snap.smoothed.as_slice(), now_ms);
    if made {
        pacing.rows_since_spectrum = pacing.rows_since_spectrum + 1;
    }
    if pacing.due(view.last_fft.is_some(), now_ms) {
        pacing.mark(now_ms);
        view.last_fft = Some(refresh_spectrum(snap, now_ms));
    }
}

/// Whether a bin belongs to a channel: it does not end at or before the point half the
/// bandwidth below the mark, and the bin before it does not begin at or after the point
/// half the bandwidth above. A bin is `span / n` wide, and frequencies are doubled.
pub open spec fn in_channel(
    n: int,
    span_hz: int,
    left_half_hz: int,
    marker_hz: int,
    bw_hz: int,
    i: int,
) -> bool {
    &&& (i + 1) * (2 * span_hz) > (2 * marker_hz - bw_hz - left_half_hz) * n
    &&& (i - 1) * (2 * span_hz) < (2 * marker_hz + bw_hz - left_half_hz) * n
}

/// The bins from the first of a channel to its last are those that belong to it.
pub proof fn law_a_channel_is_its_bins(
    n: int,
    span_hz: int,
    left_half_hz: int,
    marker_hz: int,
    bw_hz: int,
    i: int,
)
    requires
        0 < span_hz,
        0 <= i < n,
    ensures
        channel_first(n, span_hz, left_half_hz, marker_hz, bw_hz) <= i <= channel_last(
            n,
            span_hz,
            left_half_hz,
            marker_hz,
            bw_hz,
        ) <==> in_channel(n, span_hz, left_half_hz, marker_hz, bw_hz, i),
{
    let w = 2 * span_hz;
    let below = (2 * marker_hz - bw_hz - left_half_hz) * n;
    let above = (2 * marker_hz + bw_hz - left_half_hz) * n;
    let p = below / w;
    let q = (above + w - 1) / w;
    vstd::arithmetic::div_mod::lemma_fundamental_div_mod(below, w);
    vstd::arithmetic::div_mod::lemma_mod_bound(below, w);
    vstd::arithmetic::div_mod::lemma_fundamental_div_mod(above + w - 1, w);
    vstd::arithmetic::div_mod::lemma_mod_bound(above + w - 1, w);
    assert(p <= i <==> (i + 1) * w > below) by (nonlinear_arith)
        requires
            below == w * p + below % w,
            0 <= below % w < w,
    ;
    assert(i <= q <==> (i - 1) * w < above) by (nonlinear_arith)
        requires
            above + w - 1 == w * q + (above + w - 1) % w,
            0 <= (above + w - 1) % w < w,
    ;
    if below < 0 {
        assert((i + 1) * w > below) by (nonlinear_arith)
            requires
                0 <= i,
                0 < w,
                below < 0,
        ;
    }
}

/// The bandwidth of a mark depends on the bins of its channel alone: two frames of one
/// axis that agree on those give one answer.
pub proof fn law_only_the_channel_counts(
    a: Seq<u64>,
    b: Seq<u64>,
    span_hz: int,
    left_half_hz: int,
    marker_hz: int,
    bw_hz: int,
)
    requires
        a.len() == b.len(),
        0 <= bw_hz,
        forall|i: int|
            0 <= i < a.len() && in_channel(
                a.len() as int,
                span_hz,
                left_half_hz,
                marker_hz,
                bw_hz,
                i,
            ) ==> #[trigger] a[i] == b[i],
    ensures
        bandwidth_at(a, span_hz, left_half_hz, marker_hz, bw_hz) == bandwidth_at(
            b,
            span_hz,
            left_half_hz,
            marker_hz,
            bw_hz,
        ),
{
    let n = a.len() as int;
    if n > 0 && span_hz > 0 && left_half_hz <= 2 * marker_hz <= left_half_hz + 2 * span_hz {
        let first = channel_first(n, span_hz, left_half_hz, marker_hz, bw_hz);
        let last = channel_last(n, span_hz, left_half_hz, marker_hz, bw_hz);
        if first <= last {
            lemma_channel_inside(n, span_hz, left_half_hz, marker_hz, bw_hz);
            assert forall|i: int| first <= i <= last implies #[trigger] a[i] == b[i] by {
                law_a_channel_is_its_bins(n, span_hz, left_half_hz, marker_hz, bw_hz, i);
            }
            assert(a.subrange(first, last + 1) == b.subrange(first, last + 1));
        }
    }
}

/// A channel does not begin before its frame nor end after it.
proof fn lemma_channel_inside(
    n: int,
    span_hz: int,
    left_half_hz: int,
    marker_hz: int,
    bw_hz: int,
)
    requires
        0 < n,
        0 < span_hz,
    ensures
        0 <= channel_first(n, span_hz, left_half_hz, marker_hz, bw_hz),
        channel_last(n, span_hz, left_half_hz, marker_hz, bw_hz) < n,
{
    let below = (2 * marker_hz - bw_hz - left_half_hz) * n;
    if below >= 0 {
        vstd::arithmetic::div_mod::lemma_div_pos_is_pos(below, 2 * span_hz);
    }
}

/// No power at all in some bins, and some power in others, shows in their sum.
proof fn lemma_some_power(s: Seq<u64>, i: int)
    requires
        0 <= i < s.len(),
    ensures
        power_of(s) >= s[i],
    decreases s.len(),
{
    let head = s.drop_last();
    lemma_power(head);
    if i < head.len() {
        lemma_some_power(head, i);
    }
}

proof fn lemma_no_power(s: Seq<u64>)
    requires
        forall|i: int| 0 <= i < s.len() ==> #[trigger] s[i] == 0,
    ensures
        power_of(s) == 0,
    decreases s.len(),
{
    if s.len() > 0 {
        let head = s.drop_last();
        assert forall|i: int| 0 <= i < head.len() implies #[trigger] head[i] == 0 by {
            assert(head[i] == s[i]);
        }
        lemma_no_power(head);
        assert(s[s.len() - 1] == 0);
    }
}

/// A mark has a bandwidth where it lies in the span and a bin of its channel has power,
/// and nowhere else. It is a whole bin at least, and no wider than the channel and the
/// bins its ends fall into.
pub proof fn law_a_mark_is_measured_where_its_channel_has_power(
    linear: Seq<u64>,
    span_hz: int,
    left_half_hz: int,
    marker_hz: int,
    bw_hz: int,
)
    requires
        0 <= bw_hz,
    ensures
        ({
            let n = linear.len() as int;
            let answer = bandwidth_at(linear, span_hz, left_half_hz, marker_hz, bw_hz);
            &&& answer is Some <==> {
                &&& 0 < span_hz
                &&& left_half_hz <= 2 * marker_hz <= left_half_hz + 2 * span_hz
                &&& exists|i: int|
                    0 <= i < n && #[trigger] linear[i] > 0 && in_channel(
                        n,
                        span_hz,
                        left_half_hz,
                        marker_hz,
                        bw_hz,
                        i,
                    )
            }
            &&& answer matches Some(hz) ==> span_hz < (hz + 1) * n && (hz * n <= bw_hz * n + 3
                * span_hz) && 0 <= hz <= span_hz
        }),
{
    let n = linear.len() as int;
    let answer = bandwidth_at(linear, span_hz, left_half_hz, marker_hz, bw_hz);
    if n > 0 && span_hz > 0 && left_half_hz <= 2 * marker_hz <= left_half_hz + 2 * span_hz {
        let first = channel_first(n, span_hz, left_half_hz, marker_hz, bw_hz);
        let last = channel_last(n, span_hz, left_half_hz, marker_hz, bw_hz);
        lemma_channel_inside(n, span_hz, left_half_hz, marker_hz, bw_hz);
        if first <= last {
            let part = linear.subrange(first, last + 1);
            if exists|i: int|
                0 <= i < n && #[trigger] linear[i] > 0 && in_channel(
                    n,
                    span_hz,
                    left_half_hz,
                    marker_hz,
                    bw_hz,
                    i,
                ) {
                let i = choose|i: int|
                    0 <= i < n && #[trigger] linear[i] > 0 && in_channel(
                        n,
                        span_hz,
                        left_half_hz,
                        marker_hz,
                        bw_hz,
                        i,
                    );
                law_a_channel_is_its_bins(n, span_hz, left_half_hz, marker_hz, bw_hz, i);
                assert(part[i - first] == linear[i]);
                lemma_some_power(part, i - first);
            } else {
                assert forall|k: int| 0 <= k < part.len() implies #[trigger] part[k] == 0 by {
                    law_a_channel_is_its_bins(
                        n,
                        span_hz,
                        left_half_hz,
                        marker_hz,
                        bw_hz,
                        first + k,
                    );
                    assert(part[k] == linear[first + k]);
                }
                lemma_no_power(part);
            }
            if answer is Some {
                let bins = occupied_bins(part);
                let hz = answer->Some_0;
                law_occupied_fits_the_channel(part);
                law_a_channel_is_its_bins(n, span_hz, left_half_hz, marker_hz, bw_hz, first);
                law_a_channel_is_its_bins(n, span_hz, left_half_hz, marker_hz, bw_hz, last);
                lemma_width(n, span_hz, bins, hz, first, last, 2 * marker_hz - left_half_hz, bw_hz);
            }
        } else {
            assert forall|i: int| 0 <= i < n implies !in_channel(
                n,
                span_hz,
                left_half_hz,
                marker_hz,
                bw_hz,
                i,
            ) by {
                law_a_channel_is_its_bins(n, span_hz, left_half_hz, marker_hz, bw_hz, i);
            }
        }
    }
}

/// So many bins are no wider than the channel and the bins its ends fall into.
proof fn lemma_width(
    n: int,
    span_hz: int,
    bins: int,
    hz: int,
    first: int,
    last: int,
    mid: int,
    bw_hz: int,
)
    requires
        0 < n,
        0 < span_hz,
        1 <= bins <= last - first + 1,
        0 <= first,
        last < n,
        hz == bins * span_hz / n,
        (first + 1) * (2 * span_hz) > (mid - bw_hz) * n,
        (last - 1) * (2 * span_hz) < (mid + bw_hz) * n,
    ensures
        span_hz < (hz + 1) * n,
        hz * n <= bw_hz * n + 3 * span_hz,
        0 <= hz <= span_hz,
{
    let a = bins * span_hz;
    vstd::arithmetic::div_mod::lemma_fundamental_div_mod(a, n);
    vstd::arithmetic::div_mod::lemma_mod_bound(a, n);
    assert(span_hz <= a <= n * span_hz) by (nonlinear_arith)
        requires
            a == bins * span_hz,
            1 <= bins <= n,
            0 < span_hz,
    ;
    assert(span_hz < (hz + 1) * n && hz * n <= a) by (nonlinear_arith)
        requires
            a == n * hz + a % n,
            0 <= a % n < n,
            span_hz <= a,
    ;
    assert(0 <= hz <= span_hz) by (nonlinear_arith)
        requires
            a == n * hz + a % n,
            0 <= a % n < n,
            0 <= a <= n * span_hz,
    ;
    let up = (mid + bw_hz) * n;
    let down = (mid - bw_hz) * n;
    assert(up - down == 2 * (bw_hz * n)) by (nonlinear_arith)
        requires
            up == (mid + bw_hz) * n,
            down == (mid - bw_hz) * n,
    ;
    assert((last - 1) * (2 * span_hz) - (first + 1) * (2 * span_hz) == 2 * ((last - first - 2)
        * span_hz)) by (nonlinear_arith);
    assert((last - first - 2) * span_hz < bw_hz * n);
    assert(a <= (last - first - 2) * span_hz + 3 * span_hz) by (nonlinear_arith)
        requires
            a == bins * span_hz,
            bins <= last - first + 1,
            0 < span_hz,
    ;
}

/// Adding up one by one is adding up.
proof fn lemma_power_folds(s: Seq<u64>)
    ensures
        power_of(s) == s.fold_left(0int, |a: int, p: u64| a + p),
    decreases s.len(),
{
    if s.len() > 0 {
        lemma_power_folds(s.drop_last());
    }
}

/// The last bin below a limit is below it, and the next is not.
proof fn lemma_last_below_is_last(s: Seq<u64>, limit: int, k: int)
    requires
        0 <= k <= s.len(),
    ensures
        ({
            let at = last_below(s, limit, k);
            &&& at >= 0 ==> 200 * power_of(s.take(at + 1)) < limit
            &&& forall|j: int| at + 1 < j <= k ==> 200 * power_of(#[trigger] s.take(j)) >= limit
            &&& -1 <= at < k || k == 0 && at == -1
        }),
    decreases k,
{
    if k > 0 && !(200 * power_of(s.take(k)) < limit) {
        lemma_last_below_is_last(s, limit, k - 1);
    }
}

/// The occupied bins run from the one in which half a percent of the power is reached to
/// the one in which all but half a percent is: less than half a percent lies before the
/// first of them, and less than all but half a percent before the last.
pub proof fn law_occupied_bins_hold_ninety_nine_percent(s: Seq<u64>) -> (ends: (int, int))
    requires
        s.fold_left(0int, |a: int, p: u64| a + p) > 0,
    ensures
        ({
            let (low, high) = ends;
            let up_to = |k: int| s.take(k).fold_left(0int, |a: int, p: u64| a + p);
            let total = s.fold_left(0int, |a: int, p: u64| a + p);
            &&& 0 <= low <= high < s.len()
            &&& occupied_bins(s) == high - low + 1
            &&& 200 * up_to(low) < total <= 200 * up_to(low + 1)
            &&& 200 * up_to(high) < 199 * total <= 200 * up_to(high + 1)
        }),
{
    let n = s.len() as int;
    let total = power_of(s);
    lemma_power_folds(s);
    assert(s.take(n) == s);
    assert(s.take(0) == Seq::<u64>::empty());
    lemma_last_below_is_last(s, total, n);
    lemma_last_below_is_last(s, 199 * total, n);
    lemma_limits_keep_order(s, total, 199 * total, n);
    let low = last_below(s, total, n) + 1;
    let high = last_below(s, 199 * total, n) + 1;
    if n == 0 {
        assert(false);
    }
    assert(high < n) by {
        if high == n {
            assert(200 * power_of(s.take(n)) < 199 * total);
        }
    }
    lemma_power_folds(s.take(low));
    lemma_power_folds(s.take(low + 1));
    lemma_power_folds(s.take(high));
    lemma_power_folds(s.take(high + 1));
    if low == 0 {
        assert(power_of(s.take(0)) == 0);
    }
    if high == 0 {
        assert(power_of(s.take(0)) == 0);
    }
    (low, high)
}

/// A mark without a channel is not measured, and one with a channel as the frame says of
/// its own frequency and bandwidth, on the axis from half the rate below the centre.
pub proof fn law_every_mark_is_measured_on_its_own(m: SpectrumMarker, snap: Snapshot)
    ensures
        m.channel_bw_hz is None ==> marker_answer(m, snap) is None,
        m.channel_bw_hz matches Some(bw) ==> marker_answer(m, snap) == bandwidth_at(
            snap.linear@,
            snap.sample_rate_hz as int,
            2 * snap.center_freq_hz - snap.sample_rate_hz,
            m.freq_hz as int,
            bw as int,
        ),
{
}

/// The spectrum is redrawn where there is none, after two rows of the waterfall, and
/// after four tenths of a second; otherwise it stays.
pub proof fn law_the_spectrum_keeps_pace(pacing: Pacing, has_frame: bool, now_ms: u64)
    ensures
        pacing.is_due(has_frame, now_ms) <==> !has_frame || pacing.rows_since_spectrum >= 2
            || now_ms >= pacing.last_update_ms + 400,
{
}

/// A frame lies round the frequency its snapshot was taken at, as wide as it was sampled,
/// and shows each of its levels.
pub proof fn law_a_frame_lies_round_its_snapshot(
    frame: FftFrame,
    snap: Snapshot,
    now_ms: u64,
    i: int,
)
    requires
        shows(frame, snap, now_ms),
        0 <= i < snap.smoothed@.len(),
    ensures
        ({
            let left = frame.axis_start_half_hz as int;
            let right = left + 2 * frame.sample_rate_hz;
            &&& left + right == 4 * snap.center_freq_hz
            &&& right - left == 2 * snap.sample_rate_hz
            &&& frame.bins@.len() == snap.smoothed@.len()
            &&& frame.bins@[i] == snap.smoothed@[i]
            &&& frame.peak_hold@ == snap.peak@
            &&& frame.noise_floor == snap.reading.noise_floor
            &&& frame.timestamp_ms == now_ms
        }),
{
}

/// A row that the waterfall made counts, and a frame that made none does not.
pub proof fn law_a_row_is_counted_once(pacing: Pacing)
    ensures
        rows_with(pacing, true) == pacing.rows_since_spectrum + 1,
        rows_with(pacing, false) == pacing.rows_since_spectrum,
{
}

} // verus!
