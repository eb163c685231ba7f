//! Filters, rates, repeats and the channels of the markers, run on real samples.

use num_complex::Complex;
use sdrtop::signal::dsp::estimate::{coherence_squared, moose_range, schmidl_cox_plateau};
use sdrtop::signal::dsp::fir::StreamingDecimator;
use sdrtop::signal::dsp::resample::{gcd, Resampler};
use sdrtop::signal::dsp::testkit::Rng;
use sdrtop::signal::fft::publish::{
    marker_bandwidth_hz, publish, refresh_spectrum, update_marker_bandwidths, Pacing, Reading,
    Signal, Snapshot, SpectrumMarker,
};
use sdrtop::state::waterfall::{WaterfallPalette, WaterfallState};
use std::f64::consts::{PI, TAU};

type Sample = Complex<f32>;

const ROLLOFF: f64 = 0.1;
const STOPBAND: f64 = 60.0;

/// A complex tone of unit amplitude at so many cycles per sample.
fn tone(f: f64, n: usize) -> Vec<Sample> {
    (0..n)
        .map(|i| {
            let ph = TAU * (f * i as f64).fract();
            Complex::new(ph.cos() as f32, ph.sin() as f32)
        })
        .collect()
}

/// A low-pass kernel with unit gain at zero, under a window of its own.
fn lowpass(taps: usize, fc: f64, window: impl Fn(f64) -> f64) -> Vec<f32> {
    let taps = taps.max(1) | 1;
    let m = (taps - 1) as f64 / 2.0;
    let h: Vec<f64> = (0..taps)
        .map(|i| {
            let x = i as f64 - m;
            let sinc = if x.abs() < 1e-9 {
                2.0 * fc
            } else {
                (2.0 * PI * fc * x).sin() / (PI * x)
            };
            sinc * window(i as f64 / (taps - 1).max(1) as f64)
        })
        .collect();
    let sum: f64 = h.iter().sum();
    h.iter().map(|v| (v / sum) as f32).collect()
}

fn hamming(taps: usize, fc: f64) -> Vec<f32> {
    lowpass(taps, fc, |t| 0.54 - 0.46 * (2.0 * PI * t).cos())
}

fn bessel(x: f64) -> f64 {
    let (mut sum, mut term) = (1.0, 1.0);
    for k in 1..60 {
        term *= (x / (2.0 * k as f64)).powi(2);
        sum += term;
    }
    sum
}

/// A kernel for a rate of `l / m` with so much rejection.
fn kaiser(l: usize, m: usize, stopband: f64) -> Vec<f32> {
    let g = gcd(l, m);
    let edge = 0.5 / (l / g).max(m / g) as f64;
    let transition = edge * ROLLOFF;
    let beta = 0.1102 * (stopband - 8.7);
    let taps = ((stopband - 7.95) / (14.36 * transition)).ceil() as usize + 1;
    lowpass(taps, edge - transition / 2.0, |t| {
        let x = 2.0 * t - 1.0;
        bessel(beta * (1.0 - x * x).max(0.0).sqrt()) / bessel(beta)
    })
}

/// A decimating filter: the library says which samples, the kernel weighs them.
struct Decimator {
    kernel: Vec<f32>,
    state: StreamingDecimator<Sample>,
}

impl Decimator {
    fn new(kernel: Vec<f32>, d: usize) -> Self {
        let state = StreamingDecimator::new(kernel.len(), d);
        Decimator { kernel, state }
    }

    fn process(&mut self, input: &[Sample]) -> Vec<Sample> {
        let windows = self.state.process(input);
        windows
            .starts
            .iter()
            .map(|s| {
                windows.samples[*s..*s + self.kernel.len()]
                    .iter()
                    .zip(self.kernel.iter())
                    .map(|(x, h)| x * h)
                    .sum()
            })
            .collect()
    }
}

/// A resampler: the library says which samples and which branch.
struct Rate {
    kernel: Vec<f32>,
    state: Resampler<Sample>,
}

impl Rate {
    fn new(l: usize, m: usize) -> Self {
        let kernel = kaiser(l, m, STOPBAND);
        let state = Resampler::new(l, m, kernel.len());
        Rate { kernel, state }
    }

    fn process(&mut self, input: &[Sample]) -> Vec<Sample> {
        let (l, _) = self.state.ratio();
        let bt = self.state.bt;
        let branches: Vec<Vec<f32>> = (0..l)
            .map(|p| {
                (0..bt)
                    .map(|u| match self.state.branch_tap(p, u) {
                        Some(k) => self.kernel[k] * l as f32,
                        None => 0.0,
                    })
                    .collect()
            })
            .collect();
        let done = self.state.process(input);
        done.outputs
            .iter()
            .map(|o| {
                done.samples[o.start..o.start + bt]
                    .iter()
                    .zip(branches[o.branch].iter())
                    .map(|(x, h)| x * h)
                    .sum()
            })
            .collect()
    }

    fn process_ragged(&mut self, input: &[Sample], sizes: &[usize]) -> Vec<Sample> {
        let mut all = Vec::new();
        let (mut i, mut k) = (0, 0);
        while i < input.len() {
            let n = sizes[k % sizes.len()].min(input.len() - i);
            all.extend(self.process(&input[i..i + n]));
            i += n;
            k += 1;
        }
        all
    }

    fn delay(&self) -> f64 {
        let (num, den) = self.state.delay_input_samples();
        num as f64 / den as f64
    }
}

/// The mean magnitude, and the frequency from the turns between samples.
fn measure(x: &[Sample]) -> (f64, f64) {
    let wide = |s: &Sample| Complex::new(s.re as f64, s.im as f64);
    let mag = x.iter().map(|s| wide(s).norm()).sum::<f64>() / x.len() as f64;
    let (mut sum, mut carry) = (0.0f64, 0.0f64);
    for w in x.windows(2) {
        let d = (wide(&w[1]) / wide(&w[0])).arg() - carry;
        let t = sum + d;
        carry = (t - sum) - d;
        sum = t;
    }
    (mag, sum / (x.len() - 1) as f64 / TAU)
}

#[test]
fn an_impulse_comes_back_out_as_the_kernel() {
    let h = hamming(65, 0.1);
    let n = h.len();
    for (i, &t) in h.iter().enumerate() {
        assert!(
            (t - h[n - 1 - i]).abs() < 1e-7,
            "tap {i} breaks symmetry: {t} vs {}",
            h[n - 1 - i]
        );
    }
    let mut input = vec![Complex::new(0.0f32, 0.0); 2 * n];
    input[n - 1] = Complex::new(1.0, 0.0);
    let out = Decimator::new(h.clone(), 1).process(&input);
    assert!(out.len() > n, "not enough output to see the whole kernel");
    for (i, tap) in h.iter().enumerate() {
        assert!(
            (out[i].re - h[n - 1 - i]).abs() < 1e-6 && out[i].im.abs() < 1e-6,
            "sample {i} is {} and should be {tap}",
            out[i]
        );
    }
}

#[test]
fn a_constant_survives_decimation_unchanged() {
    let h = hamming(63, 0.05);
    for d in [1usize, 2, 8, 40] {
        let input = vec![Complex::new(0.25f32, -0.75); 4096];
        let out = Decimator::new(h.clone(), d).process(&input);
        assert!(!out.is_empty(), "d={d} produced nothing");
        for (i, v) in out.iter().enumerate() {
            assert!(
                (v.re - 0.25).abs() < 1e-4 && (v.im + 0.75).abs() < 1e-4,
                "d={d} sample {i} is {v}"
            );
        }
    }
}

#[test]
fn decimating_is_a_noop_when_the_input_is_shorter_than_the_filter() {
    let mut sd = Decimator::new(hamming(63, 0.1), 4);
    let out = sd.process(&tone(0.01, 10));
    assert!(out.is_empty());
    assert_eq!(sd.state.tail.len(), 10, "and carries forward");
}

#[test]
fn fir_feeding_in_ragged_pieces_matches_one_long_block() {
    let d = 8;
    let taps = hamming(133, 0.4 / d as f64);
    let iq = tone(0.0025, 1 << 15);
    let whole = Decimator::new(taps.clone(), d).process(&iq);

    for pieces in [3_001usize, 101, 7, 999, 4_097, 1, 65_536] {
        let mut sd = Decimator::new(taps.clone(), d);
        let mut pieced = Vec::new();
        for chunk in iq.chunks(pieces) {
            pieced.extend(sd.process(chunk));
        }
        assert_eq!(
            pieced.len(),
            whole.len(),
            "chunk size {pieces}: sample count diverged"
        );
        for (i, (a, b)) in pieced.iter().zip(whole.iter()).enumerate() {
            assert!(
                (a - b).norm() < 1e-4,
                "chunk size {pieces}, sample {i}: {a} vs {b}"
            );
        }
    }
}

#[test]
fn a_reset_starts_a_fresh_run() {
    let mut sd = Decimator::new(hamming(31, 0.1), 4);
    let iq = tone(0.005, 4096);
    let a = sd.process(&iq);
    sd.state.reset();
    let b = sd.process(&iq);
    assert_eq!(a.len(), b.len());
    for (i, (x, y)) in a.iter().zip(b.iter()).enumerate() {
        assert!((x - y).norm() < 1e-6, "sample {i}: {x} vs {y}");
    }
}

#[test]
fn the_output_rate_is_the_ratio_it_was_given() {
    for (l, m) in [(5usize, 4usize), (4, 5), (1, 4), (3, 2), (1, 1), (8, 3)] {
        const N: usize = 60_000;
        let mut r = Rate::new(l, m);
        let x = tone(0.01, 2 * N);
        let pieces = [1000, 333, 4096, 7];
        let _warmup = r.process_ragged(&x[..N], &pieces);
        let steady = r.process_ragged(&x[N..], &pieces).len();
        let want = N as f64 * l as f64 / m as f64;
        assert!(
            (steady as f64 - want).abs() <= 1.0,
            "{l}/{m}: {steady} outputs for {N} inputs, expected {want}"
        );
    }
}

#[test]
fn a_tone_keeps_its_frequency_and_its_amplitude() {
    let delta = 10f64.powf(-STOPBAND / 20.0);
    for (l, m) in [(5usize, 4usize), (4, 5), (1, 4), (3, 2), (1, 1), (8, 3)] {
        let f_in = 0.02;
        let mut r = Rate::new(l, m);
        let out = r.process(&tone(f_in, 20_000));
        let (mag, f_out) = measure(&out);
        let want = f_in * m as f64 / l as f64;
        assert!(
            (f_out - want).abs() < 1e-9,
            "{l}/{m}: tone came out at {f_out} cycles/sample, expected {want}"
        );
        assert!(
            (mag - 1.0).abs() < 2.0 * delta,
            "{l}/{m}: amplitude {mag} is outside the designed ripple"
        );
    }
}

#[test]
fn a_ratio_of_one_is_the_input_delayed_by_the_stated_amount() {
    let mut r = Rate::new(1, 1);
    let d = r.delay();
    assert_eq!(d, d.round(), "at 1/1 the delay must be a whole sample");
    let x = tone(0.1, 10_000);
    let y = r.process(&x);
    let delta = 10f64.powf(-STOPBAND / 20.0);
    for (k, s) in y.iter().enumerate().take(5_000) {
        let want = x[k + d as usize];
        assert!(
            (s - want).norm() as f64 <= 3.0 * delta,
            "sample {k}: {s} against {want}, delay {d}"
        );
    }
}

#[test]
fn resample_feeding_in_ragged_pieces_matches_one_long_block() {
    for (l, m) in [(5usize, 4usize), (1, 4), (8, 3)] {
        let x = tone(0.03, 20_000);
        let a = Rate::new(l, m).process(&x);
        let b = Rate::new(l, m).process_ragged(&x, &[1, 2, 3, 5, 8, 1013, 4096]);
        assert_eq!(a, b, "{l}/{m}: the seam between blocks is visible");
    }
}

#[test]
fn a_tone_resampled_up_and_back_down_is_the_same_tone() {
    let f = 0.02;
    let x = tone(f, 60_000);
    let a = Rate::new(5, 4).process(&x);
    let b = Rate::new(4, 5).process(&a);

    let (mag, f_out) = measure(&b);
    assert!(
        (f_out - f).abs() < 1e-9,
        "the round trip returned {f_out} cycles/sample, not {f}"
    );
    let delta = 10f64.powf(-STOPBAND / 20.0);
    assert!(
        (mag - 1.0).abs() < 4.0 * delta,
        "the round trip returned amplitude {mag}"
    );

    let refs = tone(f, b.len());
    let rot = (b[0] / refs[0]).unscale(b[0].norm());
    let err = b
        .iter()
        .zip(refs.iter())
        .map(|(y, r)| (y - r * rot).norm() as f64)
        .fold(0.0f64, f64::max);
    assert!(err < 4e-4, "worst residual {err} against the ideal tone");
}

#[test]
fn the_ratio_is_reduced_and_a_reset_resampler_starts_over() {
    assert_eq!(gcd(48, 18), 6);
    assert_eq!(gcd(7, 0), 7);
    let mut r: Resampler<i32> = Resampler::new(4, 2, 6);
    assert_eq!(r.ratio(), (2, 1));
    assert_eq!(r.taps(), 6);
    let first = r.process(&[1, 2, 3, 4, 5]);
    let (samples, outputs) = (first.samples, first.outputs);
    r.reset();
    let again = r.process(&[1, 2, 3, 4, 5]);
    assert_eq!(samples, again.samples);
    assert_eq!(outputs, again.outputs);
    assert_eq!(outputs.len(), 6, "two for each of three windows");
}

/// The repeat metric of every window of two halves, in units of ten to the minus twelfth.
fn repeat_metric(x: &[Sample], half: usize) -> Vec<i64> {
    (0..=x.len() - 2 * half)
        .map(|s| {
            let (mut p, mut r) = (Complex::new(0.0f64, 0.0), 0.0f64);
            for i in s..s + half {
                let a = Complex::new(x[i].re as f64, x[i].im as f64);
                let b = Complex::new(x[i + half].re as f64, x[i + half].im as f64);
                p += a.conj() * b;
                r += b.norm_sqr();
            }
            (p.norm_sqr() / (r * r) * 1e12) as i64
        })
        .collect()
}

/// Points of a four-point constellation on the unit circle.
fn qpsk(rng: &mut Rng, n: usize) -> Vec<Sample> {
    const R: f32 = std::f32::consts::FRAC_1_SQRT_2;
    (0..n)
        .map(|_| {
            let (re, im) = rng.qpsk_signs();
            Complex::new(if re { -R } else { R }, if im { -R } else { R })
        })
        .collect()
}

#[test]
fn the_plateau_covers_the_cyclic_prefix_and_a_little_more() {
    const L: usize = 64;
    const G: usize = 16;
    const PRE: usize = 200;
    let mut rng = Rng::new(21);
    let a = qpsk(&mut rng, L);
    let mut x = qpsk(&mut rng, PRE);
    x.extend_from_slice(&a[L - G..]);
    x.extend_from_slice(&a);
    x.extend_from_slice(&a);
    x.extend_from_slice(&qpsk(&mut rng, 400));
    let m = repeat_metric(&x, L);

    let p = schmidl_cox_plateau(&m, 9, 10).unwrap();
    assert!(
        p.start <= PRE && p.end >= PRE + G,
        "the plateau {}..={} does not cover the flat run {PRE}..={}",
        p.start,
        p.end,
        PRE + G
    );
    let spill = (L as f64 * (1.0 - 0.9f64.sqrt())).ceil() as usize + 4;
    assert!(
        PRE - p.start <= spill && p.end - (PRE + G) <= spill,
        "the plateau {}..={} spills more than {spill} past {PRE}..={}",
        p.start,
        p.end,
        PRE + G
    );
    assert!(p.peak_metric as f64 / 1e12 > 0.99);
}

#[test]
fn an_empty_metric_has_no_plateau() {
    assert!(schmidl_cox_plateau(&[], 9, 10).is_none());
}

#[test]
fn a_plateau_runs_as_far_as_the_fraction_allows() {
    let p = schmidl_cox_plateau(&[1, 90, 95, 100, 89, 100, 91, 20], 9, 10).unwrap();
    assert_eq!((p.start, p.end, p.peak, p.peak_metric), (5, 6, 5, 100), "the last of equal peaks");
    assert_eq!(p.len(), 2);
    assert!(!p.is_empty());
    assert_eq!(p.twice_centre(), 11);
    let p = schmidl_cox_plateau(&[1, 2, 3], 2, 1).unwrap();
    assert_eq!((p.start, p.end), (2, 2), "more than the peak is the peak");
}

/// Circular noise of a total power.
fn noise(rng: &mut Rng, n: usize, power: f64) -> Vec<Sample> {
    let s = (power / 2.0).sqrt();
    let mut unit = move |rng: &mut Rng| rng.unit_parts() as f64 / 9_007_199_254_740_993.0;
    (0..n)
        .map(|_| {
            let r = (-2.0 * unit(rng).ln()).sqrt();
            let theta = TAU * unit(rng);
            Complex::new((s * r * theta.cos()) as f32, (s * r * theta.sin()) as f32)
        })
        .collect()
}

/// The metric of one preamble of two equal halves, in noise of a stated ratio.
fn trial(d: usize, snr_db: f64, rng: &mut Rng) -> i64 {
    let half = qpsk(rng, d);
    let x: Vec<Sample> = half.iter().chain(half.iter()).copied().collect();
    let n = noise(rng, x.len(), 1.0 / 10f64.powf(snr_db / 10.0));
    let heard: Vec<Sample> = x.iter().zip(n.iter()).map(|(s, z)| s + z).collect();
    repeat_metric(&heard, d)[0]
}

fn mean(v: &[f64]) -> f64 {
    v.iter().sum::<f64>() / v.len() as f64
}

fn variance(v: &[f64]) -> f64 {
    let m = mean(v);
    v.iter().map(|x| (x - m).powi(2)).sum::<f64>() / (v.len() - 1) as f64
}

/// The ratio a metric stands for, unless the two copies agree altogether.
fn snr_of(metric: i64, pairs: usize) -> Option<f64> {
    let c = coherence_squared(metric, METRIC_UNIT, pairs);
    if c.num == c.den {
        return None;
    }
    let rho = (c.num as f64 / c.den as f64).sqrt();
    Some(rho / (1.0 - rho))
}

const METRIC_UNIT: u64 = 1_000_000_000_000;

#[test]
fn the_coherence_bias_is_real_and_the_correction_removes_it() {
    const TRIALS: usize = 4000;
    let snr = 1.0f64;
    let rho2 = (snr / (1.0 + snr)).powi(2);
    for pairs in [64usize, 256] {
        let mut rng = Rng::new(0xC0DE + pairs as u64);
        let m: Vec<i64> = (0..TRIALS).map(|_| trial(pairs, 0.0, &mut rng)).collect();
        let raws: Vec<f64> = m.iter().map(|&v| v as f64 / METRIC_UNIT as f64).collect();
        let sem = (variance(&raws) / TRIALS as f64).sqrt();
        let raw = mean(&raws) - rho2;
        let corrected: Vec<f64> = m
            .iter()
            .map(|&v| {
                let c = coherence_squared(v, METRIC_UNIT, pairs);
                c.num as f64 / c.den as f64
            })
            .collect();
        let left = mean(&corrected) - rho2;
        assert!(
            raw > 3.0 * sem,
            "{pairs}: the raw bias {raw:e} is not resolvable against {sem:e}"
        );
        assert!(
            left.abs() < 3.0 * sem,
            "{pairs}: the corrected metric is still {left:e} off, {:.1} standard errors",
            left.abs() / sem
        );
    }
}

#[test]
fn the_snr_falls_out_of_the_coherence() {
    const TRIALS: usize = 2000;
    for (pairs, snr_db) in [(64usize, 0.0f64), (64, 6.0), (64, 10.0), (1024, 20.0)] {
        let mut rng = Rng::new(0xBEEF + pairs as u64 + snr_db as u64);
        let s: Vec<f64> = (0..TRIALS)
            .map(|_| {
                let m = trial(pairs, snr_db, &mut rng);
                snr_of(m, pairs).map_or(f64::NAN, |v| 10.0 * v.log10())
            })
            .filter(|v| v.is_finite())
            .collect();
        assert!(
            s.len() > TRIALS * 9 / 10,
            "{pairs} pairs at {snr_db} dB: {} of {TRIALS} trials refused",
            TRIALS - s.len()
        );
        let got = mean(&s);
        assert!(
            (got - snr_db).abs() < 0.6,
            "{pairs} pairs: asked for {snr_db} dB, the coherence says {got:.2} dB"
        );
    }
}

#[test]
fn the_snr_estimator_refuses_above_its_ceiling_rather_than_guessing() {
    const TRIALS: usize = 2000;
    const D: usize = 64;
    let mut rng = Rng::new(0xCE11);
    let refused = (0..TRIALS)
        .filter(|_| {
            let m = trial(D, 20.0, &mut rng);
            snr_of(m, D).is_none()
        })
        .count();
    assert!(
        refused > TRIALS / 20,
        "only {refused} of {TRIALS} refused at 20 dB with {D} pairs; the ceiling this test \
         documents has moved"
    );
}

#[test]
fn the_correction_is_exact_and_stays_on_the_scale() {
    let c = coherence_squared(1, 2, 3);
    assert_eq!((c.num, c.den), (1, 4), "three halves less one, over two");
    // A coherence of a quarter reads a quarter and a fourth of the rest.
    let c = coherence_squared(4 + 3, 16, 4);
    assert_eq!(c.num * 4, c.den);
    let c = coherence_squared(-5, 10, 8);
    assert_eq!(c.num, 0);
    let c = coherence_squared(1, 100, 2);
    assert_eq!(c.num, 0, "below what noise alone gives there is nothing");
    let c = coherence_squared(11, 10, 8);
    assert_eq!(c.num, c.den);
    let c = coherence_squared(3, 10, 1);
    assert_eq!((c.num, c.den), (3, 10), "one product has no bias to speak of");
    assert_eq!((moose_range(64).num, moose_range(64).den), (1, 128));
    assert_eq!(moose_range(0).den, 2);
}

fn power(x: &[Sample]) -> f64 {
    x.iter()
        .map(|s| (s.re as f64).powi(2) + (s.im as f64).powi(2))
        .sum::<f64>()
        / x.len() as f64
}

#[test]
fn the_noise_has_the_power_it_was_asked_for() {
    let mut rng = Rng::new(1);
    for want in [1.0, 0.01, 100.0] {
        let z = noise(&mut rng, 200_000, want);
        let got = power(&z);
        assert!(
            (got / want - 1.0).abs() < 0.02,
            "asked for power {want}, measured {got}"
        );
    }
}

#[test]
fn the_noise_is_circular_and_centred() {
    let mut rng = Rng::new(2);
    let z = noise(&mut rng, 200_000, 1.0);
    let n = z.len() as f64;
    let mean_re = z.iter().map(|s| s.re as f64).sum::<f64>() / n;
    let mean_im = z.iter().map(|s| s.im as f64).sum::<f64>() / n;
    assert!(mean_re.abs() < 0.01 && mean_im.abs() < 0.01, "not centred");
    let pr = z.iter().map(|s| (s.re as f64).powi(2)).sum::<f64>() / n;
    let pi = z.iter().map(|s| (s.im as f64).powi(2)).sum::<f64>() / n;
    assert!((pr / pi - 1.0).abs() < 0.03, "unequal components: {pr} {pi}");
    let cross = z.iter().map(|s| s.re as f64 * s.im as f64).sum::<f64>() / n;
    assert!(cross.abs() < 0.01, "components are correlated: {cross}");
}

#[test]
fn a_stated_snr_is_the_ratio_of_the_two_powers() {
    let mut rng = Rng::new(3);
    let s = qpsk(&mut rng, 100_000);
    for snr in [-10.0, 0.0, 20.0] {
        let mut r2 = Rng::new(4);
        let added = noise(&mut r2, s.len(), power(&s) / 10f64.powf(snr / 10.0));
        let y: Vec<Sample> = s.iter().zip(added.iter()).map(|(a, b)| a + b).collect();
        let noise: Vec<Sample> = y.iter().zip(s.iter()).map(|(a, b)| a - b).collect();
        let got = 10.0 * (power(&s) / power(&noise)).log10();
        assert!((got - snr).abs() < 0.1, "asked {snr} dB, measured {got} dB");
    }
}

#[test]
fn the_same_seed_gives_the_same_signal() {
    let a = noise(&mut Rng::new(7), 1000, 1.0);
    let b = noise(&mut Rng::new(7), 1000, 1.0);
    assert_eq!(a, b);
    assert_ne!(a, noise(&mut Rng::new(8), 1000, 1.0));
}

#[test]
fn the_generator_is_the_published_one() {
    let mut rng = Rng::new(1_234_567);
    assert_eq!(rng.next_u64(), 6_457_827_717_110_365_317);
    assert_eq!(rng.next_u64(), 3_203_168_211_198_807_973);
}

fn marker(freq_hz: u64, channel_bw_hz: u64, measured_bw_hz: Option<u64>) -> SpectrumMarker {
    SpectrumMarker {
        freq_hz,
        label: "M1".to_string(),
        channel_bw_hz: Some(channel_bw_hz),
        measured_bw_hz,
    }
}

fn reading() -> Reading {
    Reading {
        noise_floor: Some(-160_000_000),
        signal: Signal {
            peak_to_nf: 0,
            channel_power: None,
            occupied_bw_hz: 0,
            modulation: Some(2),
            acpr_lower: Some(-31_500_000),
            acpr_upper: Some(-32_000_000),
            adj_carrier: None,
            acpr_offset_hz: 200_000,
        },
    }
}

fn snapshot(db: f64, linear: u64) -> Snapshot {
    let levels = vec![Some((db * 1e6) as i64); 64];
    Snapshot {
        reading: reading(),
        smoothed: levels.clone(),
        peak: levels,
        linear: vec![linear; 64],
        center_freq_hz: 100_000_000,
        sample_rate_hz: 1_000_000,
        enbw_hz: 1,
    }
}

#[test]
fn a_channel_with_no_power_in_it_clears_the_marker_rather_than_keeping_the_last_one() {
    let snap = snapshot(-160.0, 0);
    let mut markers = vec![marker(100_000_000, 100_000, Some(37_000))];
    update_marker_bandwidths(&mut markers, &snap);
    assert_eq!(markers[0].measured_bw_hz, None);
}

#[test]
fn a_marker_outside_the_band_measures_nothing() {
    let linear = vec![1u64; 100];
    assert_eq!(marker_bandwidth_hz(&linear, 100_000, 0, -1, 20_000), None);
    assert_eq!(marker_bandwidth_hz(&linear, 100_000, 0, 100_001, 20_000), None);
}

#[test]
fn a_frame_with_nothing_in_it_measures_nothing() {
    assert_eq!(marker_bandwidth_hz(&[], 1_000, 0, 50_000, 20_000), None);
    let linear = vec![1u64; 100];
    assert_eq!(marker_bandwidth_hz(&linear, 0, 0, 50_000, 20_000), None);
}

#[test]
fn a_channel_window_with_no_power_measures_nothing() {
    let linear = vec![0u64; 100];
    assert_eq!(marker_bandwidth_hz(&linear, 100_000, 0, 50_000, 20_000), None);
}

#[test]
fn a_tone_measures_its_own_width_and_not_the_windows() {
    let mut linear = vec![0u64; 100];
    for l in linear.iter_mut().take(53).skip(48) {
        *l = 1_000_000;
    }
    assert_eq!(
        marker_bandwidth_hz(&linear, 100_000, 0, 50_000, 20_000),
        Some(5_000)
    );
}

#[test]
fn a_tone_at_the_edge_of_its_channel_measures_its_own_width() {
    let width = |linear: &[u64]| marker_bandwidth_hz(linear, 4_000, 0, 2_000, 4_000);
    assert_eq!(width(&[1, 0, 0, 0]), Some(1_000));
    assert_eq!(width(&[0, 0, 0, 1]), Some(1_000));
    assert_eq!(width(&[1, 1, 0, 0]), Some(2_000));
    assert_eq!(width(&[1, 1, 1, 1]), Some(4_000));
    assert_eq!(width(&[1, 1_000, 1_000, 1]), Some(2_000), "what is left out is under a percent");
}

#[test]
fn a_frame_the_ui_is_still_holding_is_rebuilt_rather_than_written_over() {
    let held = refresh_spectrum(&snapshot(-40.0, 1), 0);
    let published = refresh_spectrum(&snapshot(-70.0, 1), 1);
    assert_eq!(published.bins[0], Some(-70_000_000), "the new trace");
    assert_eq!(held.bins[0], Some(-40_000_000), "still the frame it was drawing");
}

#[test]
fn the_drawn_spectrum_keeps_pace_with_the_waterfall() {
    let mut view = WaterfallState::new(256, WaterfallPalette::Classic, -120_000_000, 0);
    let mut signal = Signal { modulation: None, acpr_offset_hz: 0, ..reading().signal };
    let mut markers = vec![marker(100_000_000, 100_000, None)];
    let mut pacing = Pacing::new(1_000);
    let mut put = |view: &mut WaterfallState, pacing: &mut Pacing, db: f64, now: u64| {
        publish(view, &mut signal, &mut markers, pacing, &snapshot(db, 1), now);
        view.last_fft.as_ref().map(|f| f.bins[0])
    };
    assert_eq!(put(&mut view, &mut pacing, -40.0, 1_000), Some(Some(-40_000_000)));
    assert_eq!(put(&mut view, &mut pacing, -50.0, 1_010), Some(Some(-40_000_000)), "one row");
    assert_eq!(put(&mut view, &mut pacing, -60.0, 1_020), Some(Some(-60_000_000)), "a line");
    view.buffer.paused = true;
    assert_eq!(put(&mut view, &mut pacing, -70.0, 1_030), Some(Some(-60_000_000)));
    assert_eq!(put(&mut view, &mut pacing, -80.0, 1_420), Some(Some(-80_000_000)), "too old");
    assert_eq!(view.buffer.rows.len(), 3);
    assert_eq!(signal, reading().signal);
}
