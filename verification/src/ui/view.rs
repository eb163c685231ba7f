//! The part of a frame that the spectrum panel draws.
//!
//! The trace, the peaks, the marker columns and the axes all work in the
//! coordinates of this window.

use crate::level::Level;
use crate::state::waterfall::{BinAxis, BinWindow, Edges, FftFrame, Fraction, MAX_BINS};
use vstd::prelude::*;

verus! {

/// The window that is drawn: the bins in view and the span they cover.
pub struct SpectrumView {
    pub bins: Vec<Level>,
    pub peaks: Vec<Level>,
    /// A frozen spectrum, where one is held.
    pub held: Option<Vec<Level>>,
    pub n_bins: usize,
    pub edges: Edges,
    pub bin_axis: BinAxis,
}

/// The part of a trace that a window shows. A trace of another length is cut at
/// its own end.
pub open spec fn part(v: Seq<Level>, lo: int, hi: int) -> Seq<Level> {
    let n = v.len() as int;
    let a = if lo < n {
        lo
    } else {
        n
    };
    let b = if hi < n {
        hi
    } else {
        n
    };
    v.subrange(a, b)
}

/// The part of a trace that a window shows.
fn part_of(v: &[Level], lo: usize, hi: usize) -> (out: Vec<Level>)
    requires
        lo <= hi,
    ensures
        out@ == part(v@, lo as int, hi as int),
{
    let a: usize = if lo < v.len() {
        lo
    } else {
        v.len()
    };
    let b: usize = if hi < v.len() {
        hi
    } else {
        v.len()
    };
    let mut out: Vec<Level> = Vec::new();
    let mut i: usize = a;
    while i < b
        invariant
            a <= i <= b <= v@.len(),
            out@ == v@.subrange(a as int, i as int),
        decreases b - i,
    {
        assert(v@.subrange(a as int, i + 1) == v@.subrange(a as int, i as int).push(v@[i as int]));
        out.push(v[i]);
        i += 1;
    }
    out
}

impl SpectrumView {
    pub open spec fn valid(self) -> bool {
        &&& 0 < self.n_bins <= MAX_BINS
        &&& self.edges.bounded()
        &&& self.bins@.len() == self.n_bins
    }

    /// Whether the view shows a window of the traces.
    pub open spec fn shows(
        self,
        bins: Seq<Level>,
        peaks: Seq<Level>,
        held: Option<Vec<Level>>,
        w: BinWindow,
        axis: BinAxis,
    ) -> bool {
        let lo = w.first_bin as int;
        let hi = w.first_bin + w.bin_count;
        &&& self.n_bins == w.bin_count
        &&& self.edges == w.edges
        &&& self.bin_axis == axis
        &&& self.bins@ == part(bins, lo, hi)
        &&& if lo == 0 && hi == bins.len() {
            self.peaks@ == peaks && self.held == held
        } else {
            &&& self.peaks@ == part(peaks, lo, hi)
            &&& match held {
                Some(h) => {
                    &&& self.held matches Some(own)
                    &&& own@ == part(h@, lo, hi)
                },
                None => self.held is None,
            }
        }
    }

    /// A view of a frame that is centred on a frequency.
    pub fn new(
        bins: &[Level],
        peaks: &[Level],
        held: Option<Vec<Level>>,
        center_hz: u64,
        sample_rate_hz: i64,
        zoom: usize,
        bin_axis: BinAxis,
    ) -> (r: Option<Self>)
        requires
            bins@.len() <= MAX_BINS,
            center_hz <= 0x1fff_ffff_ffff_ffff,
            -0x2000_0000_0000_0000 <= sample_rate_hz <= 0x2000_0000_0000_0000,
        ensures
            match r {
                Some(v) => {
                    &&& sample_rate_hz > 0 && bin_axis.intervals(bins@.len() as int) > 0
                    &&& v.valid()
                    &&& v.shows(
                        bins@,
                        peaks@,
                        held,
                        bin_axis.slice(
                            2 * center_hz - sample_rate_hz,
                            sample_rate_hz as int,
                            bins@.len() as int,
                            zoom as int,
                        ),
                        bin_axis,
                    )
                },
                None => sample_rate_hz <= 0 || bin_axis.intervals(bins@.len() as int) <= 0,
            },
    {
        let start: i64 = 2 * (center_hz as i64) - sample_rate_hz;
        match bin_axis.window_from_start(Some(start), Some(sample_rate_hz), bins.len(), zoom) {
            Some(w) => Some(Self::from_window(bins, peaks, held, w, bin_axis)),
            None => None,
        }
    }

    /// A view of a frame.
    pub fn from_frame(frame: &FftFrame, held: Option<Vec<Level>>, zoom: usize) -> (r: Option<Self>)
        requires
            frame.bins@.len() <= MAX_BINS,
        ensures
            match r {
                Some(v) => {
                    &&& frame.has_axis()
                    &&& v.valid()
                    &&& v.shows(
                        frame.bins@,
                        frame.peak_hold@,
                        held,
                        frame.bin_axis.slice(
                            frame.axis_start_half_hz as int,
                            frame.sample_rate_hz as int,
                            frame.bins@.len() as int,
                            zoom as int,
                        ),
                        frame.bin_axis,
                    )
                },
                None => !frame.has_axis(),
            },
    {
        match frame.window(zoom) {
            Some(w) => Some(
                Self::from_window(
                    frame.bins.as_slice(),
                    frame.peak_hold.as_slice(),
                    held,
                    w,
                    frame.bin_axis,
                ),
            ),
            None => None,
        }
    }

    /// A view of a window.
    fn from_window(
        bins: &[Level],
        peaks: &[Level],
        held: Option<Vec<Level>>,
        w: BinWindow,
        bin_axis: BinAxis,
    ) -> (v: Self)
        requires
            bins@.len() <= MAX_BINS,
            w.edges.bounded(),
            w.first_bin + w.bin_count <= bins@.len(),
            1 <= w.bin_count,
        ensures
            v.valid(),
            v.shows(bins@, peaks@, held, w, bin_axis),
    {
        let lo: usize = w.first_bin;
        let hi: usize = w.first_bin + w.bin_count;
        let shown = part_of(bins, lo, hi);
        if lo == 0 && hi == bins.len() {
            let all = part_of(peaks, 0, peaks.len());
            assert(all@ == peaks@);
            return SpectrumView {
                bins: shown,
                peaks: all,
                held,
                n_bins: w.bin_count,
                edges: w.edges,
                bin_axis,
            };
        }
        let cut = match held {
            Some(h) => Some(part_of(h.as_slice(), lo, hi)),
            None => None,
        };
        SpectrumView {
            bins: shown,
            peaks: part_of(peaks, lo, hi),
            held: cut,
            n_bins: w.bin_count,
            edges: w.edges,
            bin_axis,
        }
    }

    /// The frequency of the left edge.
    pub fn left_hz(&self) -> (f: Fraction)
        ensures
            f == (Fraction { num: self.edges.left_num, den: self.edges.den }),
    {
        Fraction { num: self.edges.left_num, den: self.edges.den }
    }

    /// The frequency of the right edge.
    pub fn right_hz(&self) -> (f: Fraction)
        requires
            self.edges.bounded(),
            0 <= self.edges.span_num,
        ensures
            f == (Fraction {
                num: (self.edges.left_num + self.edges.span_num) as i128,
                den: self.edges.den,
            }),
    {
        Fraction { num: self.edges.left_num + self.edges.span_num, den: self.edges.den }
    }

    /// The right edge of the canvas in intervals.
    pub fn n(&self) -> (n: usize)
        ensures
            n == if self.bin_axis.intervals(self.n_bins as int) > 0 {
                self.bin_axis.intervals(self.n_bins as int)
            } else {
                1
            },
    {
        match self.bin_axis.interval_count(self.n_bins) {
            Some(n) => n,
            None => 1,
        }
    }

    /// Where a bin ends on the canvas.
    pub fn bin_end(&self, index: usize) -> (n: usize)
        requires
            index < usize::MAX,
        ensures
            n == match self.bin_axis {
                BinAxis::FftBins => index + 1,
                BinAxis::MeasuredPoints => index as int,
            },
    {
        match self.bin_axis {
            BinAxis::FftBins => index + 1,
            BinAxis::MeasuredPoints => index,
        }
    }

    /// Whether the window reaches a frequency.
    pub open spec fn reaches(self, hz: int) -> bool {
        &&& self.edges.usable()
        &&& self.bin_axis.intervals(self.n_bins as int) > 0
        &&& self.edges.left_num <= hz * self.edges.den <= self.edges.left_num + self.edges.span_num
    }

    /// The level at a frequency, where the window reaches it. The outer option
    /// says whether it does, the inner one whether the bin was measured.
    pub fn level_at(&self, freq_hz: u64) -> (r: Option<Level>)
        requires
            self.valid(),
            freq_hz <= i64::MAX,
        ensures
            r == if self.reaches(freq_hz as int) {
                Some(
                    self.bins@[self.bin_axis.bin_at(
                        self.edges,
                        self.n_bins as int,
                        freq_hz as int,
                        1,
                    )],
                )
            } else {
                None
            },
    {
        match self.bin_axis.nearest_bin(self.edges, self.n_bins, Some(freq_hz as i64)) {
            Some(i) => {
                proof {
                    let b = self.bin_axis.bin_at(
                        self.edges,
                        self.n_bins as int,
                        freq_hz as int,
                        1,
                    );
                    lemma_bin_at(self.bin_axis, self.edges, self.n_bins as int, freq_hz as int);
                    assert(i == b);
                }
                Some(self.bins[i])
            },
            None => None,
        }
    }

    /// The frequency of a bin, or that of the left edge where there is no such bin.
    pub fn freq_of_bin(&self, index: usize) -> (f: Fraction)
        requires
            self.valid(),
        ensures
            if index < self.n_bins && self.bin_axis.intervals(self.n_bins as int) > 0
                && self.edges.usable() {
                (f.num as int, f.den as int) == self.bin_axis.frequency(
                    self.edges,
                    self.n_bins as int,
                    index as int,
                )
            } else {
                f == (Fraction { num: self.edges.left_num, den: self.edges.den })
            },
    {
        match self.bin_axis.frequency_of_bin(self.edges, self.n_bins, index) {
            Some(f) => f,
            None => self.left_hz(),
        }
    }
}

/// A frequency the axis reaches reads one of its bins.
proof fn lemma_bin_at(axis: BinAxis, e: Edges, bin_count: int, hz: int)
    requires
        e.usable(),
        axis.intervals(bin_count) > 0,
        e.left_num <= hz * e.den,
    ensures
        0 <= axis.bin_at(e, bin_count, hz, 1) < bin_count,
{
    let n = axis.intervals(bin_count);
    let off = hz * e.den - e.left_num * 1;
    let above = off * n;
    let width = e.span_num * 1;
    assert(0 <= above) by (nonlinear_arith)
        requires
            above == off * n,
            0 <= off,
            0 < n,
    ;
    assert(0 <= above / width) by (nonlinear_arith)
        requires
            0 <= above,
            0 < width,
    ;
    assert(0 <= (2 * above + width) / (2 * width)) by (nonlinear_arith)
        requires
            0 <= above,
            0 < width,
    ;
}

/// A view reads the level of its own bin at that bin's frequency.
pub proof fn law_a_bin_reads_its_own_level(view: SpectrumView, index: int, hz: int)
    requires
        view.valid(),
        view.edges.usable(),
        view.bin_axis.intervals(view.n_bins as int) > 0,
        0 <= index < view.n_bins,
        ({
            let (num, den) = view.bin_axis.frequency(view.edges, view.n_bins as int, index);
            num == hz * den
        }),
    ensures
        view.bin_axis.bin_at(view.edges, view.n_bins as int, hz, 1) == index,
{
    let e = view.edges;
    let count = view.n_bins as int;
    let n = view.bin_axis.intervals(count);
    let (num, den) = view.bin_axis.frequency(e, count, index);
    let above = (hz * e.den - e.left_num * 1) * n;
    let width = e.span_num * 1;
    assert(above == index * width) by (nonlinear_arith)
        requires
            above == (hz * e.den - e.left_num * 1) * n,
            width == e.span_num * 1,
            num == e.left_num * n + index * e.span_num,
            den == e.den * n,
            num == hz * den,
    ;
    vstd::arithmetic::div_mod::lemma_fundamental_div_mod_converse(above, width, index, 0);
    assert(2 * above + width == index * (2 * width) + width) by (nonlinear_arith)
        requires
            above == index * width,
    ;
    vstd::arithmetic::div_mod::lemma_fundamental_div_mod_converse(
        2 * above + width,
        2 * width,
        index,
        width,
    );
}

/// A part of a trace is the trace from where the window starts: bin by bin, and no
/// further than either ends.
pub proof fn law_a_part_is_the_trace_moved(v: Seq<Level>, lo: int, hi: int, i: int)
    requires
        0 <= lo <= hi,
    ensures
        part(v, lo, hi).len() <= hi - lo,
        hi <= v.len() ==> part(v, lo, hi).len() == hi - lo,
        lo <= v.len() <= hi ==> part(v, lo, hi).len() == v.len() - lo,
        v.len() <= lo ==> part(v, lo, hi).len() == 0,
        0 <= i < part(v, lo, hi).len() ==> part(v, lo, hi)[i] == v[lo + i],
{
}

/// Everything a view shows is cut at the same place: the levels, their peaks and a
/// frozen spectrum of the same length stand bin over bin.
pub proof fn law_traces_stand_bin_over_bin(
    view: SpectrumView,
    bins: Seq<Level>,
    peaks: Seq<Level>,
    held: Option<Vec<Level>>,
    w: BinWindow,
    axis: BinAxis,
    i: int,
)
    requires
        view.shows(bins, peaks, held, w, axis),
        w.first_bin + w.bin_count <= bins.len(),
        peaks.len() == bins.len(),
        held matches Some(h) ==> h@.len() == bins.len(),
        0 <= i < w.bin_count,
    ensures
        view.bins@.len() == w.bin_count,
        view.peaks@.len() == w.bin_count,
        view.bins@[i] == bins[w.first_bin + i],
        view.peaks@[i] == peaks[w.first_bin + i],
        held is Some <==> view.held is Some,
        held matches Some(h) ==> view.held->Some_0@.len() == w.bin_count && view.held->Some_0@[i]
            == h@[w.first_bin + i],
        view.edges == w.edges,
{
}

} // verus!
