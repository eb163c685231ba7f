//! Averages, peaks and quiet parts of levels.

use sdrtop::signal::power::{
    trace_window, PowerTrace, RejectionReporter, SpectrumAccumulator, TraceRejection,
    REJECTION_REPORT_INTERVAL_MS,
};
use sdrtop::signal::stats::{average_and_peak, finite_ema, quietest_mean, strongest, Share};
use sdrtop::state::waterfall::{BinAxis, WaterfallPalette, WaterfallState};

fn level(db: f64) -> Option<i64> {
    if db.is_finite() {
        Some((db * 1e6).round() as i64)
    } else {
        None
    }
}

fn levels(dbs: &[f64]) -> Vec<Option<i64>> {
    dbs.iter().map(|d| level(*d)).collect()
}

fn share(alpha: f64) -> Share {
    Share { num: (alpha * 10.0).round() as u32, den: 10 }
}

fn decay(db: f64) -> u32 {
    (db * 1e6).round() as u32
}

fn view() -> WaterfallState {
    WaterfallState::new(256, WaterfallPalette::Classic, level(-120.0).unwrap(), 0)
}

#[test]
fn finite_ema_keeps_the_available_value() {
    assert_eq!(finite_ema(level(-90.0), level(-80.0), share(0.2)), level(-88.0));
    assert_eq!(finite_ema(level(f64::NAN), level(-80.0), share(0.2)), level(-80.0));
    assert_eq!(finite_ema(level(-90.0), level(f64::NAN), share(0.2)), level(-90.0));
    assert_eq!(
        finite_ema(level(f64::NAN), level(f64::INFINITY), share(0.2)),
        level(f64::NEG_INFINITY)
    );
}

#[test]
fn average_and_peak_handles_missing_samples() {
    let mut smoothed = levels(&[0.0, 0.0]);
    let mut peak = levels(&[0.0, 0.0]);
    average_and_peak(
        &levels(&[f64::NAN, -90.0]),
        &mut smoothed,
        &mut peak,
        share(0.2),
        decay(0.5),
        false,
    );
    average_and_peak(
        &levels(&[-70.0, f64::NAN]),
        &mut smoothed,
        &mut peak,
        share(0.2),
        decay(0.5),
        true,
    );
    assert_eq!(smoothed, levels(&[-70.0, -90.0]));
    assert_eq!(peak, levels(&[-70.0, -90.0]));
}

#[test]
fn quietest_mean_ignores_non_finite_values() {
    let values = levels(&[-100.0, f64::NAN, -90.0, f64::INFINITY, -80.0]);
    assert_eq!(quietest_mean(&values, 10), level(-100.0));
}

#[test]
fn finite_ema_handles_all_unavailable_values_and_recovers() {
    for unavailable in [f64::NAN, f64::INFINITY, f64::NEG_INFINITY] {
        assert_eq!(finite_ema(level(unavailable), level(-80.0), share(0.2)), level(-80.0));
        assert_eq!(finite_ema(level(-90.0), level(unavailable), share(0.2)), level(-90.0));
        for other in [f64::NAN, f64::INFINITY, f64::NEG_INFINITY] {
            let absent = finite_ema(level(unavailable), level(other), share(0.2));
            assert_eq!(absent, level(f64::NEG_INFINITY));
            assert_eq!(finite_ema(absent, level(-80.0), share(0.2)), level(-80.0));
        }
    }
}

#[test]
fn finite_ema_alpha_boundaries_preserve_seeding() {
    assert_eq!(finite_ema(level(-90.0), level(-80.0), share(0.0)), level(-90.0));
    assert_eq!(finite_ema(level(-90.0), level(-80.0), share(1.0)), level(-80.0));
    for alpha in [0.0, 1.0] {
        assert_eq!(
            finite_ema(level(f64::NEG_INFINITY), level(-80.0), share(alpha)),
            level(-80.0)
        );
        assert_eq!(finite_ema(level(-90.0), level(f64::NAN), share(alpha)), level(-90.0));
    }
}

#[test]
fn average_and_peak_accepts_empty_traces() {
    for has_history in [false, true] {
        let mut smoothed = Vec::new();
        let mut peak = Vec::new();
        average_and_peak(&[], &mut smoothed, &mut peak, share(0.2), decay(0.5), has_history);
        assert!(smoothed.is_empty() && peak.is_empty());
    }
}

#[test]
fn average_and_peak_recovers_from_all_unavailable_samples() {
    let unavailable = levels(&[f64::NAN, f64::INFINITY, f64::NEG_INFINITY]);
    let absent = levels(&[f64::NEG_INFINITY; 3]);
    let mut smoothed = levels(&[-90.0; 3]);
    let mut peak = levels(&[-80.0; 3]);
    average_and_peak(&unavailable, &mut smoothed, &mut peak, share(0.2), decay(0.5), false);
    assert_eq!(smoothed, absent);
    assert_eq!(peak, absent);
    average_and_peak(&unavailable, &mut smoothed, &mut peak, share(0.2), decay(0.5), true);
    assert_eq!(smoothed, absent);
    assert_eq!(peak, absent);
    average_and_peak(
        &levels(&[-70.0; 3]),
        &mut smoothed,
        &mut peak,
        share(0.2),
        decay(0.5),
        true,
    );
    assert_eq!(smoothed, levels(&[-70.0; 3]));
    assert_eq!(peak, levels(&[-70.0; 3]));
}

#[test]
fn average_and_peak_discards_non_finite_previous_peaks() {
    for previous_peak in [f64::NAN, f64::INFINITY, f64::NEG_INFINITY] {
        for previous in [-90.0, f64::NEG_INFINITY] {
            let mut smoothed = levels(&[previous]);
            let mut peak = levels(&[previous_peak]);
            average_and_peak(
                &levels(&[f64::NAN]),
                &mut smoothed,
                &mut peak,
                share(0.2),
                decay(0.5),
                true,
            );
            assert_eq!(smoothed, levels(&[previous]));
            assert_eq!(peak, levels(&[previous]));
            average_and_peak(
                &levels(&[-70.0]),
                &mut smoothed,
                &mut peak,
                share(1.0),
                decay(0.5),
                true,
            );
            assert_eq!(smoothed, levels(&[-70.0]));
            assert_eq!(peak, levels(&[-70.0]));
        }
    }
}

#[test]
fn average_and_peak_alpha_and_decay_boundaries() {
    for (alpha, expected) in [(0.0, -90.0), (1.0, -80.0)] {
        for d in [0.0, 1.0] {
            let mut smoothed = levels(&[-90.0]);
            let mut peak = levels(&[-70.0]);
            average_and_peak(
                &levels(&[-80.0]),
                &mut smoothed,
                &mut peak,
                share(alpha),
                decay(d),
                true,
            );
            assert_eq!(smoothed, levels(&[expected]));
            assert_eq!(peak, levels(&[-70.0 - d]));
            average_and_peak(
                &levels(&[f64::NAN]),
                &mut smoothed,
                &mut peak,
                share(alpha),
                decay(d),
                true,
            );
            assert_eq!(smoothed, levels(&[expected]));
            assert_eq!(peak, levels(&[-70.0 - 2.0 * d]));
        }
    }
    let mut smoothed = levels(&[-90.0]);
    let mut peak = levels(&[-89.5]);
    average_and_peak(
        &levels(&[-90.0]),
        &mut smoothed,
        &mut peak,
        share(1.0),
        decay(1.0),
        true,
    );
    assert_eq!(peak, smoothed);
}

#[test]
fn quietest_mean_empty_and_unavailable_inputs_have_no_measurement() {
    assert_eq!(quietest_mean(&[], 10), level(f64::NEG_INFINITY));
    assert_eq!(
        quietest_mean(&levels(&[f64::NAN, f64::INFINITY, f64::NEG_INFINITY]), 10),
        level(f64::NEG_INFINITY)
    );
    assert_eq!(quietest_mean(&levels(&[-90.0, -80.0, -70.0]), 10), level(-90.0));
}

#[test]
fn quietest_mean_zero_and_one_select_all_finite_values() {
    let values = levels(&[-90.0, f64::NAN, -70.0, f64::INFINITY, f64::NEG_INFINITY]);
    for fraction in [0, 1] {
        assert_eq!(quietest_mean(&values, fraction), level(-80.0));
    }
    assert_eq!(quietest_mean(&values, usize::MAX), level(-90.0));
}

#[test]
fn noise_floor_uses_the_quiet_part_of_the_trace() {
    let mut values = levels(&[-100.0; 80]);
    values.extend(levels(&[-30.0; 20]));
    assert_eq!(quietest_mean(&values, 10), level(-100.0));
}

#[test]
fn an_average_rounds_a_half_away_from_zero() {
    let half = Share { num: 1, den: 2 };
    assert_eq!(finite_ema(Some(1), Some(2), half), Some(2));
    assert_eq!(finite_ema(Some(-1), Some(-2), half), Some(-2));
    assert_eq!(finite_ema(Some(0), Some(-1), half), Some(-1));
}

#[test]
fn a_peak_stops_at_the_lowest_level() {
    let mut smoothed = vec![None];
    let mut peak = vec![Some(i64::MIN + 3)];
    average_and_peak(&[None], &mut smoothed, &mut peak, share(0.2), 10, true);
    assert_eq!(peak, vec![Some(i64::MIN)]);
}

#[test]
fn the_strongest_level_is_found_anywhere() {
    assert_eq!(strongest(&levels(&[-90.0, f64::NAN, -20.0, -40.0])), level(-20.0));
    assert_eq!(strongest(&levels(&[f64::NAN])), None);
    assert_eq!(strongest(&[]), None);
}

#[test]
fn one_trace_fills_the_spectrum_and_the_waterfall() {
    let mut v = view();
    let mut accumulator = SpectrumAccumulator::default();
    let trace = PowerTrace {
        frequencies_hz: vec![100_000_000, 101_000_000, 102_000_000],
        levels: levels(&[-90.0, -45.0, -80.0]),
        rbw_hz: Some(10_000),
    };
    let prominence = accumulator.publish(&mut v, &trace, 7).unwrap();
    assert_eq!(prominence, 45_000_000);
    let frame = v.last_fft.as_ref().unwrap();
    assert_eq!(frame.bins, levels(&[-90.0, -45.0, -80.0]));
    assert_eq!(frame.peak_hold, levels(&[-90.0, -45.0, -80.0]));
    assert_eq!(frame.center_freq_hz, 101_000_000);
    assert_eq!(frame.axis_start_half_hz, 200_000_000);
    assert_eq!(frame.sample_rate_hz, 2_000_000);
    assert_eq!(frame.enbw_hz, 10_000);
    assert_eq!(frame.timestamp_ms, 7);
    assert_eq!(frame.channel_power, None);
    assert_eq!(frame.bin_axis, BinAxis::MeasuredPoints);
    assert_eq!(v.buffer.rows.len(), 1);
}

#[test]
fn smoothing_and_peak_hold_stay_ordered() {
    let mut v = view();
    let mut accumulator = SpectrumAccumulator::default();
    for dbs in [[-90.0, -80.0], [-91.0, -70.0], [f64::NAN, -72.0]] {
        accumulator
            .publish(
                &mut v,
                &PowerTrace {
                    frequencies_hz: vec![100_000_000, 101_000_000],
                    levels: levels(&dbs),
                    rbw_hz: None,
                },
                0,
            )
            .unwrap();
    }
    let frame = v.last_fft.as_ref().unwrap();
    let near = |x: Option<i64>, db: f64| (x.unwrap() as f64 / 1e6 - db).abs() < 1e-4;
    assert!(near(frame.bins[0], -90.2));
    assert!(near(frame.bins[1], -76.8));
    assert!(near(frame.peak_hold[0], -90.2));
    assert!(near(frame.peak_hold[1], -76.8));
    for (peak, smoothed) in frame.peak_hold.iter().zip(frame.bins.iter()) {
        assert!(peak >= smoothed);
    }
}

#[test]
fn a_finite_level_recovers_a_non_finite_bin() {
    let mut v = view();
    let mut accumulator = SpectrumAccumulator::default();
    for dbs in [[f64::NAN, -90.0], [-70.0, -80.0]] {
        accumulator
            .publish(
                &mut v,
                &PowerTrace {
                    frequencies_hz: vec![100_000_000, 101_000_000],
                    levels: levels(&dbs),
                    rbw_hz: None,
                },
                0,
            )
            .unwrap();
    }
    let frame = v.last_fft.as_ref().unwrap();
    assert_eq!(frame.bins[0], level(-70.0));
    assert!(frame.bins[1].is_some());
    assert!(frame.peak_hold[0] >= frame.bins[0]);
}

#[test]
fn non_finite_initial_levels_publish_as_unavailable() {
    let mut v = view();
    let mut accumulator = SpectrumAccumulator::default();
    accumulator
        .publish(
            &mut v,
            &PowerTrace {
                frequencies_hz: vec![100_000_000, 101_000_000],
                levels: levels(&[f64::NAN, f64::INFINITY]),
                rbw_hz: None,
            },
            0,
        )
        .unwrap();
    let frame = v.last_fft.as_ref().unwrap();
    assert_eq!(frame.bins, levels(&[f64::NEG_INFINITY, f64::NEG_INFINITY]));
    assert_eq!(frame.peak_hold, frame.bins);
    assert_eq!(frame.noise_floor, level(f64::NEG_INFINITY));
}

#[test]
fn an_rbw_change_resets_smoothing() {
    let mut v = view();
    let mut accumulator = SpectrumAccumulator::default();
    for (rbw_hz, db) in [(Some(10_000), -90.0), (Some(20_000), -40.0)] {
        accumulator
            .publish(
                &mut v,
                &PowerTrace {
                    frequencies_hz: vec![100_000_000, 101_000_000],
                    levels: levels(&[db; 2]),
                    rbw_hz,
                },
                0,
            )
            .unwrap();
    }
    let frame = v.last_fft.as_ref().unwrap();
    assert_eq!(frame.bins, levels(&[-40.0, -40.0]));
    assert_eq!(frame.peak_hold, levels(&[-40.0, -40.0]));
    assert_eq!(frame.enbw_hz, 20_000);
}

#[test]
fn rejected_traces_are_reported_at_a_bounded_rate() {
    let mut reporter = RejectionReporter::default();
    let now = 12_345;
    let log = [
        reporter.report(TraceRejection::Empty, now),
        reporter.report(TraceRejection::LengthMismatch, now + 1_000),
        reporter.report(TraceRejection::NonUniformGrid, now + REJECTION_REPORT_INTERVAL_MS),
    ];
    let lines: Vec<String> = log.into_iter().flatten().collect();
    assert_eq!(lines.len(), 2);
    assert!(lines[0].contains("empty trace"));
    assert!(lines[1].contains("1 additional trace rejected"));
}

#[test]
fn a_report_counts_what_it_stands_for() {
    let mut reporter = RejectionReporter::default();
    assert_eq!(
        reporter.report(TraceRejection::Empty, 0).unwrap(),
        "Power trace rejected: empty trace"
    );
    assert_eq!(reporter.report(TraceRejection::Empty, 4_999), None);
    assert_eq!(reporter.report(TraceRejection::Empty, 4_999), None);
    assert_eq!(
        reporter.report(TraceRejection::LengthMismatch, 5_000).unwrap(),
        "Power trace rejected: frequency and level counts differ; 2 additional traces rejected"
    );
}

#[test]
fn invalid_traces_return_specific_rejections() {
    let mut v = view();
    let mut accumulator = SpectrumAccumulator::default();
    let cases = [
        (
            PowerTrace { frequencies_hz: vec![], levels: vec![], rbw_hz: None },
            TraceRejection::Empty,
        ),
        (
            PowerTrace {
                frequencies_hz: vec![100, 200],
                levels: levels(&[-90.0]),
                rbw_hz: None,
            },
            TraceRejection::LengthMismatch,
        ),
        (
            PowerTrace {
                frequencies_hz: vec![100, 200, 350],
                levels: levels(&[-90.0; 3]),
                rbw_hz: None,
            },
            TraceRejection::NonUniformGrid,
        ),
    ];
    for (trace, expected) in cases {
        assert_eq!(accumulator.publish(&mut v, &trace, 0), Err(expected));
        assert!(v.last_fft.is_none());
        assert!(v.buffer.rows.is_empty());
    }
}

#[test]
fn trace_window_uses_the_measured_edges() {
    assert_eq!(trace_window(&[100_000, 200_000, 300_000]), Some((200_000, 200_000)));
    assert_eq!(trace_window(&[100_000]), None);
    assert_eq!(trace_window(&[100_000, 200_000, 350_000]), None);
    assert_eq!(trace_window(&[300_000, 200_000, 100_000]), None);
    assert_eq!(
        trace_window(&[100_000, 133_333, 166_667, 200_000]),
        Some((150_000, 100_000))
    );
}
