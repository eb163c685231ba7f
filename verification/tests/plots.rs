//! The keys of the spectrum and of the waterfall.

use sdrtop::hardware::native::hackrf;
use sdrtop::input::plots::{
    adjust_level_floor, spectrum, strongest_bin_frequency, tuned, waterfall, InputMode, KeyOutcome,
    Neighbours, PlotNote, SpectrumState, SpectrumStyle, LEVEL_ZOOM_STEP,
};
use sdrtop::input::Key;
use sdrtop::signal::fft::publish::SpectrumMarker;
use sdrtop::state::waterfall::{BinAxis, FftFrame, WaterfallPalette, WaterfallState};
use sdrtop::state::RadioState;

fn db(x: f64) -> i64 {
    (x * 1e6).round() as i64
}

fn radio(frequency: u64) -> RadioState {
    RadioState {
        frequency,
        rx_enabled: true,
        hw_streaming: true,
        sample_rate_hz: 10_000_000,
        bb_filter_hz: 0,
    }
}

/// A frame of noise with one carrier so far from the centre.
fn with_carrier(center_hz: u64, rate_hz: i64, offset_hz: i64, above_db: f64) -> FftFrame {
    let n = 1024usize;
    let floor = -100.0;
    let mut bins = vec![Some(db(floor)); n];
    let at = (offset_hz + rate_hz / 2) * n as i64 / rate_hz;
    bins[at as usize] = Some(db(floor + above_db));
    FftFrame {
        peak_hold: bins.clone(),
        bins,
        noise_floor: Some(db(floor)),
        center_freq_hz: center_hz,
        axis_start_half_hz: 2 * center_hz as i64 - rate_hz,
        sample_rate_hz: rate_hz,
        timestamp_ms: 0,
        peak_to_nf: db(above_db) as i128,
        channel_power: None,
        occupied_bw_hz: 0,
        enbw_hz: 0,
        bin_axis: BinAxis::FftBins,
    }
}

fn state() -> SpectrumState {
    SpectrumState {
        step_hz: 100_000,
        y_min: db(-120.0),
        y_max: 0,
        cursor_freq: None,
        markers: Vec::new(),
        pending_marker: None,
        style: SpectrumStyle::Braille,
        input_mode: InputMode::Normal,
        input_buf: "left over".to_string(),
    }
}

fn view() -> WaterfallState {
    WaterfallState::new(256, WaterfallPalette::Classic, db(-120.0), 0)
}

fn near_by() -> Neighbours {
    Neighbours {
        step_down_hz: 50_000,
        step_up_hz: 200_000,
        zoom_out: 1,
        zoom_in: 2,
        stride_down: 1,
        stride_up: 4,
    }
}

fn marker(freq_hz: u64, label: &str) -> SpectrumMarker {
    SpectrumMarker {
        freq_hz,
        label: label.to_string(),
        channel_bw_hz: None,
        measured_bw_hz: Some(1),
    }
}

fn press(s: &mut SpectrumState, v: &mut WaterfallState, key: Key) -> KeyOutcome {
    spectrum(key, s, v, &radio(100_000_000), &hackrf::caps(), true, &near_by())
}

fn text(out: KeyOutcome, amount: &str) -> String {
    match out {
        KeyOutcome::Done(Some(note)) => note.text(amount),
        _ => panic!("the key said nothing"),
    }
}

#[test]
fn peak_jump_uses_the_captured_fft_frequency_after_retuning() {
    let tuned_hz = 200_000_000;
    let frame = with_carrier(100_000_000, 32_000_000, 8_000_000, 70.0);
    assert_ne!(frame.center_freq_hz, tuned_hz);
    assert_eq!(strongest_bin_frequency(&frame), Some(108_000_000));
    assert_eq!(frame.bin_axis, BinAxis::FftBins);
    let edges = frame.window(4).unwrap().edges;
    assert_eq!(edges.span_num, 8_000_000 * edges.den);
}

#[test]
fn peak_jump_rejects_an_empty_frame() {
    let mut frame = with_carrier(100_000_000, 32_000_000, 0, 70.0);
    frame.bins = Vec::new();
    assert_eq!(strongest_bin_frequency(&frame), None);
}

#[test]
fn peak_jump_reaches_the_last_measured_point() {
    let mut bins = vec![Some(db(-90.0)); 64];
    bins[63] = Some(db(-20.0));
    let frame = FftFrame {
        peak_hold: bins.clone(),
        bins,
        noise_floor: Some(db(-90.0)),
        center_freq_hz: 131_500_000,
        axis_start_half_hz: 2 * 131_500_000 - 63_000_000,
        sample_rate_hz: 63_000_000,
        timestamp_ms: 0,
        peak_to_nf: db(70.0) as i128,
        channel_power: Some(db(-20.0)),
        occupied_bw_hz: 0,
        enbw_hz: 0,
        bin_axis: BinAxis::MeasuredPoints,
    };
    assert_eq!(strongest_bin_frequency(&frame), Some(163_000_000));
}

#[test]
fn peak_jump_falls_back_for_a_negative_frequency() {
    let tuned_hz = 1_000_000;
    let frame = with_carrier(tuned_hz, 32_000_000, -8_000_000, 70.0);
    assert_eq!(strongest_bin_frequency(&frame), None);
    assert_eq!(strongest_bin_frequency(&frame).unwrap_or(tuned_hz), 1_000_000);
}

#[test]
fn either_zoom_direction_keeps_the_floor_within_device_limits() {
    let mut caps = hackrf::caps();
    for (min, max) in [(-120.0, 0.0), (-10.0, 0.0), (-10.5, -10.0)] {
        caps.level_min = db(min);
        caps.level_max = db(max);
        for delta in [-LEVEL_ZOOM_STEP, LEVEL_ZOOM_STEP] {
            for floor in [min - 100.0, min, max, max + 100.0] {
                for ceiling in [max - 5.0, max, max + 100.0] {
                    let adjusted = adjust_level_floor(db(floor), db(ceiling), delta, &caps);
                    assert!((db(min)..db(max)).contains(&adjusted));
                    assert!(adjusted <= db(max - (max - min).min(20.0)));
                }
            }
        }
    }
}

#[test]
fn level_zoom_uses_device_bounds_and_preserves_iq_log_text() {
    for (min, max) in [
        (-120.0, 0.0),
        (-120.0, 20.0),
        (-110.0, -10.0),
        (-10.0, 0.0),
        (-10.5, -10.0),
    ] {
        let highest_floor: f64 = max - f64::min(max - min, 20.0);
        for is_waterfall in [false, true] {
            let mut caps = hackrf::caps();
            caps.level_min = db(min);
            caps.level_max = db(max);
            let mut s = state();
            s.y_min = db(min);
            s.y_max = db(max);
            let mut v = view();
            v.db_min = db(min);
            v.db_max = db(max);
            let prefix = if is_waterfall { "Waterfall zoom" } else { "Zoom" };
            let mut last = String::new();
            let mut press = |key: Key, s: &mut SpectrumState, v: &mut WaterfallState| {
                let out = if is_waterfall {
                    waterfall(key, v, 100_000, &radio(100_000_000), &caps, &near_by())
                } else {
                    spectrum(key, s, v, &radio(100_000_000), &caps, false, &near_by())
                };
                last = text(out, "");
                last.clone()
            };
            assert_eq!(
                press(Key::Up, &mut s, &mut v),
                format!(
                    "{prefix}: {:.0}\u{2026}{max:.0} dBFS",
                    f64::min(min + 10.0, highest_floor)
                )
            );
            for _ in 0..20 {
                press(Key::Up, &mut s, &mut v);
            }
            let floor = if is_waterfall { v.db_min } else { s.y_min };
            assert_eq!(floor, db(highest_floor));
            let mut line = String::new();
            for _ in 0..20 {
                line = press(Key::Down, &mut s, &mut v);
            }
            let floor = if is_waterfall { v.db_min } else { s.y_min };
            assert_eq!(floor, db(min));
            assert_eq!(line, format!("{prefix}: {min:.0}\u{2026}{max:.0} dBFS"));
        }
    }
}

#[test]
fn the_last_of_equal_peaks_is_the_peak() {
    let mut frame = with_carrier(100_000_000, 32_000_000, 8_000_000, 70.0);
    frame.bins[1023] = frame.bins[768];
    assert_eq!(frame.bins[768], Some(db(-30.0)));
    assert_eq!(strongest_bin_frequency(&frame), Some(115_968_750));
}

#[test]
fn arrows_tune_by_the_step_inside_the_device_limits() {
    let mut s = state();
    let mut v = view();
    assert!(matches!(press(&mut s, &mut v, Key::Left), KeyOutcome::Tune(99_900_000)));
    assert!(matches!(press(&mut s, &mut v, Key::Right), KeyOutcome::Tune(100_100_000)));
    s.step_hz = 1_000_000_000_000;
    assert!(matches!(press(&mut s, &mut v, Key::Left), KeyOutcome::Tune(1_000_000)));
    assert!(matches!(press(&mut s, &mut v, Key::Right), KeyOutcome::Tune(6_000_000_000)));
    let out = spectrum(
        Key::Left,
        &mut s,
        &mut v,
        &radio(100_000_000),
        &hackrf::caps(),
        false,
        &near_by(),
    );
    assert!(matches!(out, KeyOutcome::Done(None)));
}

#[test]
fn a_refused_tuning_keeps_the_radio_and_says_why() {
    let mut r = radio(100_000_000);
    let done = tuned(&mut r, 101_000_000, Err("busy".to_string()));
    assert_eq!(r.frequency, 100_000_000);
    assert!(!done.hunting);
    assert_eq!(done.note.unwrap().text(""), "Tune error: busy");
    let done = tuned(&mut r, 101_000_000, Ok(()));
    assert_eq!(r.frequency, 101_000_000);
    assert!(done.hunting && done.note.is_none());
}

#[test]
fn steps_and_zooms_take_the_neighbouring_value() {
    let mut s = state();
    let mut v = view();
    assert_eq!(text(press(&mut s, &mut v, Key::Char('[')), "50 kHz"), "Step \u{2192} 50 kHz");
    assert_eq!(s.step_hz, 50_000);
    press(&mut s, &mut v, Key::Char(']'));
    assert_eq!(s.step_hz, 200_000);
    assert_eq!(text(press(&mut s, &mut v, Key::Char('=')), ""), "Freq zoom: \u{d7}2");
    assert_eq!(v.hz_zoom, 2);
    assert_eq!(text(press(&mut s, &mut v, Key::Char('-')), ""), "Freq zoom: off");
    assert_eq!(v.hz_zoom, 1);
    assert_eq!(text(press(&mut s, &mut v, Key::Char('d')), ""), "Spectrum style: fill");
    press(&mut s, &mut v, Key::Char('d'));
    press(&mut s, &mut v, Key::Char('d'));
    assert_eq!(s.style, SpectrumStyle::Braille);
    assert!(matches!(press(&mut s, &mut v, Key::Char('x')), KeyOutcome::FallThrough));
    assert!(matches!(press(&mut s, &mut v, Key::Tab), KeyOutcome::FallThrough));
}

#[test]
fn a_cursor_starts_at_the_tuning_and_stays_on_the_device() {
    let mut s = state();
    let mut v = view();
    press(&mut s, &mut v, Key::Char('j'));
    assert_eq!(s.cursor_freq, Some(100_000_000));
    press(&mut s, &mut v, Key::Char('j'));
    assert_eq!(s.cursor_freq, Some(99_900_000));
    press(&mut s, &mut v, Key::Char('k'));
    press(&mut s, &mut v, Key::Char('k'));
    assert_eq!(s.cursor_freq, Some(100_100_000));
    s.cursor_freq = Some(5_999_999_999);
    press(&mut s, &mut v, Key::Char('k'));
    assert_eq!(s.cursor_freq, Some(6_000_000_000));
}

#[test]
fn a_mark_asks_for_a_name_and_a_second_one_removes_it() {
    let mut s = state();
    let mut v = view();
    v.last_fft = Some(with_carrier(100_000_000, 32_000_000, 8_000_000, 70.0));
    assert_eq!(
        text(press(&mut s, &mut v, Key::Char('m')), ""),
        "Name this marker at 108.000 MHz (Enter = confirm, empty = auto-label)"
    );
    assert_eq!(s.pending_marker, Some(108_000_000));
    assert_eq!(s.input_mode, InputMode::MarkerNameInput);
    assert_eq!(s.input_buf, "");
    s.markers = vec![marker(90_000_000, "far"), marker(108_099_999, "near")];
    assert_eq!(text(press(&mut s, &mut v, Key::Char('m')), ""), "Marker removed: near");
    assert_eq!(s.markers.len(), 1);
    assert_eq!(s.markers[0].label, "far");
}

#[test]
fn a_channel_takes_each_width_and_then_none() {
    let mut s = state();
    let mut v = view();
    assert_eq!(
        text(press(&mut s, &mut v, Key::Char('b')), ""),
        "No marker near cursor \u{2014} place one with [M] first"
    );
    s.markers = vec![marker(100_300_000, "b"), marker(99_900_000, "a")];
    for bw in [6_250, 12_500, 25_000, 50_000, 100_000, 200_000, 500_000] {
        let line = text(press(&mut s, &mut v, Key::Char('b')), "wide");
        assert_eq!(line, "Marker 'a' channel BW \u{2192} wide");
        assert_eq!(s.markers[1].channel_bw_hz, Some(bw));
        assert_eq!(s.markers[1].measured_bw_hz, None);
    }
    assert_eq!(
        text(press(&mut s, &mut v, Key::Char('b')), ""),
        "Marker 'a' channel BW cleared"
    );
    assert_eq!(s.markers[1].channel_bw_hz, None);
    assert_eq!(s.markers[0].measured_bw_hz, Some(1));
    s.markers = vec![marker(100_400_000, "out of reach")];
    assert!(matches!(
        press(&mut s, &mut v, Key::Char('b')),
        KeyOutcome::Done(Some(PlotNote::NoMarkerNear))
    ));
}

#[test]
fn the_waterfall_has_its_own_keys() {
    let mut v = view();
    let caps = hackrf::caps();
    let mut press = |v: &mut WaterfallState, key: Key| {
        waterfall(key, v, 100_000, &radio(100_000_000), &caps, &near_by())
    };
    assert_eq!(
        text(press(&mut v, Key::Char(']')), ""),
        "Waterfall: \u{d7}4 frames/row"
    );
    assert_eq!(v.buffer.row_stride, 4);
    assert_eq!(text(press(&mut v, Key::Char('+')), ""), "Waterfall zoom: \u{d7}2");
    assert_eq!(text(press(&mut v, Key::Char('-')), ""), "Waterfall zoom: off");
    press(&mut v, Key::Left);
    assert_eq!(v.cursor_freq, None, "no cursor, nothing to move");
    press(&mut v, Key::Char('m'));
    assert_eq!(v.cursor_freq, Some(100_000_000));
    press(&mut v, Key::Left);
    assert_eq!(v.cursor_freq, Some(99_900_000));
    press(&mut v, Key::Right);
    assert_eq!(v.cursor_freq, Some(100_000_000));
    press(&mut v, Key::Char('m'));
    assert_eq!(v.cursor_freq, None);
    assert_eq!(text(press(&mut v, Key::Char('p')), ""), "Waterfall palette: amber");
    press(&mut v, Key::Char('['));
    for i in 0..5 {
        v.buffer.push(&[Some(i)], 0);
    }
    for _ in 0..5 {
        press(&mut v, Key::Char('j'));
    }
    assert_eq!(v.scroll_offset, 2, "half as many lines as rows");
    press(&mut v, Key::Char('k'));
    assert_eq!(v.scroll_offset, 1);
    assert!(matches!(press(&mut v, Key::Enter), KeyOutcome::FallThrough));
}
