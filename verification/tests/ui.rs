//! What the panels show.

use sdrtop::event::DeviceOptionRequest;
use sdrtop::hardware::DeviceOption;
use sdrtop::state::waterfall::{BinAxis, FftFrame, Fraction, WaterfallBuffer};
use sdrtop::ui::buffer;
use sdrtop::ui::cells::{self, band_max, Columns, Paint};
use sdrtop::ui::options::{
    fit_text, gone_sentence, heading, lines, range_sentence, render, scroll_offset, todo,
    DeviceOptionUpdate, Editor, EmptyPane,
};
use sdrtop::ui::recall::{self, recall_pip, Peak, Pip, RecallSlot};
use sdrtop::ui::stem::{self, draw, row_of, Axis, StemCell, Tap};
use sdrtop::ui::view::SpectrumView;
use sdrtop::ui::{Piece, Tone};

fn db(x: f64) -> i64 {
    (x * 1e6).round() as i64
}

fn level(x: f64) -> Option<i64> {
    Some(db(x))
}

/// Wraps words into rows of a width.
fn wrap(text: &str, width: usize, most: usize) -> Vec<String> {
    let mut rows: Vec<String> = Vec::new();
    let mut row = String::new();
    for word in text.split(' ') {
        let mut word: Vec<char> = word.chars().collect();
        if !row.is_empty() && row.chars().count() + 1 + word.len() > width {
            rows.push(row.clone());
            row.clear();
        }
        if !row.is_empty() {
            row.push(' ');
        }
        word.truncate(width);
        row.extend(word);
    }
    if !row.is_empty() {
        rows.push(row);
    }
    rows.truncate(most);
    rows
}

fn empty_pane(iw: usize) -> EmptyPane {
    EmptyPane {
        heading_rows: wrap(heading(), iw.saturating_sub(4), 3),
        comment_rows: todo().iter().flat_map(|t| wrap(t, iw.saturating_sub(5), 3)).collect(),
    }
}

fn line_text(row: &[Piece]) -> String {
    row.iter().map(|p| p.text.as_str()).collect()
}

fn width(row: &[Piece]) -> usize {
    line_text(row).chars().count()
}

fn option(id: &str, label: &str, choices: &[&str], selected: &str) -> DeviceOption {
    DeviceOption {
        id: id.into(),
        label: label.into(),
        choices: choices.iter().map(|c| c.to_string()).collect(),
        selected_choice: selected.into(),
        integer_range: None,
    }
}

fn bandwidth(selected: &str) -> Vec<DeviceOption> {
    vec![option("bandwidth", "Bandwidth", &["Narrow", "Wide"], selected)]
}

/// The pane as its rows of text.
fn pane(
    options: &Vec<DeviceOption>,
    selected: usize,
    update: DeviceOptionUpdate,
    iw: usize,
    height: usize,
) -> String {
    lines(options, &None, &empty_pane(iw), selected, &update, iw, height)
        .iter()
        .map(|l| line_text(l))
        .collect::<Vec<_>>()
        .join("\n")
}

#[test]
fn the_empty_state_names_itself_and_admits_it() {
    let text = pane(&Vec::new(), 0, DeviceOptionUpdate::Idle, 60, 20);
    assert!(text.contains("Settings will live here"), "{text}");
    assert!(text.contains("TODO"), "{text}");
}

#[test]
fn every_row_fits_the_pane() {
    for iw in [28, 40, 44, 60, 100] {
        let rows = lines(
            &Vec::new(),
            &None,
            &empty_pane(iw),
            0,
            &DeviceOptionUpdate::Idle,
            iw,
            20,
        );
        for line in rows {
            assert!(
                width(&line) <= iw,
                "a {}-wide row does not fit {iw} columns: {}",
                width(&line),
                line_text(&line)
            );
        }
    }
}

#[test]
fn the_copy_uses_no_em_dashes() {
    assert!(!heading().contains('\u{2014}'));
    assert!(todo().iter().all(|t| !t.contains('\u{2014}')));
}

#[test]
fn options_name_their_current_choices() {
    let text = pane(&bandwidth("Wide"), 0, DeviceOptionUpdate::Idle, 60, 20);
    assert!(text.contains("Bandwidth"), "{text}");
    assert!(text.contains("Wide"), "{text}");
}

#[test]
fn the_selected_option_stays_in_a_short_viewport() {
    let options: Vec<DeviceOption> = (0..6)
        .map(|i| {
            option(&format!("option-{i}"), &format!("Option {i}"), &["Off", "On"], "Off")
        })
        .collect();
    let text = pane(&options, 5, DeviceOptionUpdate::Idle, 60, 5);
    assert!(text.contains("Option 5"), "{text}");
    assert!(!text.contains("Option 0"), "{text}");
}

#[test]
fn the_selected_option_uses_the_only_available_row() {
    let text = pane(&bandwidth("Wide"), 0, DeviceOptionUpdate::Idle, 60, 1);
    assert!(text.contains("Bandwidth"), "{text}");
    assert!(text.contains("Wide"), "{text}");
}

#[test]
fn backend_text_never_exceeds_the_pane_width() {
    let long = "A device-provided choice that is much too long";
    let options = vec![option(
        "long",
        "A device-provided label that is much too long",
        &[long],
        long,
    )];
    for iw in [1, 4, 7, 8, 12, 20, 28] {
        let rows = lines(
            &options,
            &None,
            &empty_pane(iw),
            0,
            &DeviceOptionUpdate::Idle,
            iw,
            6,
        );
        for line in rows {
            assert!(
                width(&line) <= iw,
                "a {}-wide row does not fit {iw} columns: {}",
                width(&line),
                line_text(&line)
            );
        }
    }
}

#[test]
fn pending_change_keeps_the_accepted_choice_visible() {
    let update = DeviceOptionUpdate::Pending {
        request: DeviceOptionRequest {
            request_id: 1,
            id: "bandwidth".into(),
            label: "Bandwidth".into(),
            choice: "Wide".into(),
        },
        quit_requested: false,
    };
    let text = pane(&bandwidth("Narrow"), 0, update, 80, 1);
    assert!(text.contains("Narrow -> Wide..."), "{text}");
}

#[test]
fn failed_change_keeps_the_accepted_choice_visible() {
    let update = DeviceOptionUpdate::Failed { id: "bandwidth".into() };
    let text = pane(&bandwidth("Narrow"), 0, update, 80, 1);
    assert!(text.contains("Narrow (failed)"), "{text}");
    assert!(!text.contains("Wide"), "{text}");
}

#[test]
fn numeric_editor_shows_validation_errors_and_fits_narrow_panes() {
    let mut gain = option("gain", "Gain", &["0", "12"], "0");
    gain.integer_range = Some((-100, 100));
    let options = vec![gain];
    let editor = |iw: usize, error: Option<&str>| {
        Some(Editor {
            id: "gain".into(),
            input: "101".into(),
            range_rows: wrap(&range_sentence(-100, 100), iw, 3),
            error_rows: error.map(|e| wrap(e, iw, 4)),
            gone_rows: wrap(gone_sentence(), iw, 4),
        })
    };
    let error = Some("Enter an advertised integer from -100 to 100");
    let shown = |options: &Vec<DeviceOption>, iw: usize, error: Option<&str>| {
        lines(
            options,
            &editor(iw, error),
            &empty_pane(iw),
            0,
            &DeviceOptionUpdate::Idle,
            iw,
            20,
        )
    };
    for iw in [0, 1, 4, 7, 12, 28, 60] {
        for line in shown(&options, iw, error) {
            assert!(width(&line) <= iw, "{}", line_text(&line));
        }
    }
    let text = shown(&options, 60, error)
        .iter()
        .map(|l| line_text(l))
        .collect::<Vec<_>>()
        .join("\n");
    assert!(text.contains("Gain: 0"), "{text}");
    assert!(text.contains("Value: 101_"), "{text}");
    assert!(text.contains("Integer -100 to 100"), "{text}");
    assert!(text.contains("Enter an advertised integer"), "{text}");

    let text = shown(&Vec::new(), 60, None)
        .iter()
        .map(|l| line_text(l))
        .collect::<String>();
    assert!(
        text.contains("Option is no longer available. Esc cancels."),
        "{text}"
    );
}

#[test]
fn text_is_cut_by_what_it_takes_on_the_screen() {
    let chars = |t: &str| t.chars().collect::<Vec<char>>();
    assert_eq!(fit_text(&chars("abcdef"), 4), chars("abcd"));
    assert_eq!(fit_text(&chars("abc"), 4), chars("abc"));
    // Wide characters take two columns each.
    assert_eq!(fit_text(&chars("\u{6f22}\u{5b57}x"), 3), chars("\u{6f22}"));
    assert_eq!(fit_text(&chars("\u{6f22}\u{5b57}x"), 5), chars("\u{6f22}\u{5b57}x"));
    assert_eq!(fit_text(&chars("abc"), 0), chars(""));
}

#[test]
fn the_view_scrolls_no_further_than_it_has_to() {
    assert_eq!(scroll_offset(0, 10, 4), 0);
    assert_eq!(scroll_offset(3, 10, 4), 0);
    assert_eq!(scroll_offset(4, 10, 4), 1);
    assert_eq!(scroll_offset(9, 10, 4), 6);
    assert_eq!(scroll_offset(9, 3, 4), 0);
    assert_eq!(scroll_offset(9, 10, 0), 0);
    assert_eq!(render(7, 10, 3), 3);
    assert_eq!(render(2, 10, 3), 2);
    assert_eq!(render(2, 0, 3), 0);
}

fn frame(center_hz: u64, rate_hz: i64, bins: Vec<Option<i64>>, axis: BinAxis) -> FftFrame {
    FftFrame {
        peak_hold: bins.clone(),
        bins,
        noise_floor: level(-100.0),
        center_freq_hz: center_hz,
        axis_start_half_hz: 2 * center_hz as i64 - rate_hz,
        sample_rate_hz: rate_hz,
        timestamp_ms: 0,
        peak_to_nf: 0,
        channel_power: None,
        occupied_bw_hz: 0,
        enbw_hz: 1,
        bin_axis: axis,
    }
}

/// The peaks of a spectrum that stand above their surroundings.
fn rail_peaks(frame: &FftFrame) -> Vec<Peak> {
    (0..frame.bins.len())
        .filter(|i| frame.bins[*i] > level(-80.0))
        .map(|i| {
            let f = frame.frequency_of_bin(i).unwrap();
            Peak { hz: (f.num / f.den) as u64, level: frame.bins[i].unwrap() }
        })
        .collect()
}

#[test]
fn recall_uses_the_captured_frame_after_retuning() {
    let tuned_hz = 200_000_000;
    let mut bins = vec![level(-100.0); 1024];
    bins[(8_000_000 + 32_000_000 / 2) * 1024 / 32_000_000] = level(-30.0);
    let captured = Some(frame(100_000_000, 32_000_000, bins, BinAxis::FftBins));
    assert_ne!(captured.as_ref().unwrap().center_freq_hz, tuned_hz);
    let peaks = rail_peaks(captured.as_ref().unwrap());
    let pip = recall_pip(108_000_000, &captured, &peaks, false).unwrap();
    assert_eq!((pip.glyph(), pip == Pip::Strong), ("\u{28ff}\u{2847}", true));
    assert_eq!(recall_pip(208_000_000, &captured, &peaks, false), None);
    assert_eq!(recall_pip(108_000_000, &captured, &peaks, true), None);
    assert_eq!(peaks, vec![Peak { hz: 108_000_000, level: db(-30.0) }]);
}

#[test]
fn a_memory_tells_a_strong_signal_from_a_weak_one_and_from_none() {
    let captured = Some(frame(
        100_000_000,
        32_000_000,
        vec![level(-100.0); 64],
        BinAxis::FftBins,
    ));
    let near = |x: f64| [Peak { hz: 100_100_000, level: db(x) }];
    let pip = |x: f64| recall_pip(100_000_000, &captured, &near(x), false);
    assert_eq!(pip(-70.0), Some(Pip::Strong));
    assert_eq!(pip(-80.0), Some(Pip::Close), "twenty above is not more than twenty");
    assert_eq!(recall_pip(100_000_000, &captured, &[], false), Some(Pip::Quiet));
    assert_eq!(recall_pip(100_000_000, &None, &near(-30.0), false), None);
    let slots = [
        Some(RecallSlot {
            vfo: "100.000".to_string(),
            band: Some("FM".to_string()),
            pip: pip(-70.0),
        }),
        None,
    ];
    let rows = recall::lines(&slots, Some(0));
    assert_eq!(rows.len(), 3);
    let first = line_text(&rows[0]);
    assert!(first.starts_with('\u{25b8}') && first.contains("100.000"), "{first}");
    assert_eq!(line_text(&rows[1]), " 2 \u{2014}");
    assert!(rows[2].is_empty());
}

fn ramp(n: usize) -> Vec<Option<i64>> {
    (0..n).map(|i| level(i as f64)).collect()
}

fn hertz(f: Fraction) -> f64 {
    f.num as f64 / f.den as f64
}

fn bw(v: &SpectrumView) -> f64 {
    v.edges.span_num as f64 / v.edges.den as f64
}

/// Where a frequency stands on the canvas, in intervals.
fn freq_to_canvas_x(hz: f64, v: &SpectrumView) -> f64 {
    (hz - hertz(v.left_hz())) / bw(v) * v.n() as f64
}

#[test]
fn zoom_one_shows_the_whole_span_without_copying() {
    let bins = ramp(1024);
    let v = SpectrumView::new(&bins, &ramp(1024), None, 92_800_000, 2_000_000, 1, BinAxis::FftBins)
        .unwrap();
    assert_eq!(v.n_bins, 1024);
    assert_eq!(hertz(v.left_hz()), 91_800_000.0);
    assert_eq!(bw(&v), 2_000_000.0);
    assert!(v.bins == bins, "zoom 1 shows the frame's bins");
}

#[test]
fn zoom_takes_the_centre_slice_around_the_tuned_frequency() {
    let v = SpectrumView::new(
        &ramp(1000),
        &ramp(1000),
        None,
        92_800_000,
        2_000_000,
        4,
        BinAxis::FftBins,
    )
    .unwrap();
    assert_eq!(v.n_bins, 250);
    assert_eq!(v.bins[0], level(375.0), "starts a quarter of the way in, not at 0");
    assert_eq!(bw(&v), 500_000.0, "a quarter of the span");
    assert!(hertz(v.left_hz()) < 92_800_000.0 && hertz(v.right_hz()) > 92_800_000.0);
}

#[test]
fn measured_point_zoom_keeps_the_slice_endpoints() {
    let v = SpectrumView::new(
        &ramp(64),
        &ramp(64),
        None,
        131_500_000,
        63_000_000,
        4,
        BinAxis::MeasuredPoints,
    )
    .unwrap();
    assert_eq!(v.bins.first(), Some(&level(24.0)));
    assert_eq!(v.bins.last(), Some(&level(39.0)));
    assert_eq!(hertz(v.freq_of_bin(0)), 124_000_000.0);
    assert_eq!(hertz(v.freq_of_bin(15)), 139_000_000.0);
    assert_eq!(hertz(v.left_hz()), 124_000_000.0);
    assert_eq!(hertz(v.right_hz()), 139_000_000.0);
}

#[test]
fn measured_point_view_reads_the_last_odd_span_endpoint() {
    let mut captured = frame(100_001, 3, ramp(4), BinAxis::MeasuredPoints);
    captured.axis_start_half_hz = 2 * 100_000;
    captured.noise_floor = level(-90.0);
    let view = SpectrumView::from_frame(&captured, None, 1).unwrap();
    assert_eq!(hertz(view.freq_of_bin(0)), 100_000.0);
    assert_eq!(hertz(view.freq_of_bin(3)), 100_003.0);
    assert_eq!(view.level_at(100_003), Some(level(3.0)));
    assert_eq!(hertz(view.right_hz()), 100_003.0);
}

#[test]
fn bin_frequencies_map_to_their_canvas_positions() {
    for axis in [BinAxis::FftBins, BinAxis::MeasuredPoints] {
        let view =
            SpectrumView::new(&ramp(32), &ramp(32), None, 100_000_000, 32_000_000, 1, axis)
                .unwrap();
        for index in [0, 8, 16, 24, 31] {
            let x = freq_to_canvas_x(hertz(view.freq_of_bin(index)), &view);
            assert!((x - index as f64).abs() < 1e-6, "{axis:?} bin {index}: {x}");
        }
    }
}

#[test]
fn a_hold_captured_at_another_bin_count_does_not_panic() {
    let v = SpectrumView::new(
        &ramp(1024),
        &ramp(1024),
        Some(ramp(200)),
        92_800_000,
        2_000_000,
        4,
        BinAxis::FftBins,
    )
    .unwrap();
    assert!(v.held.unwrap().len() <= 200);
}

#[test]
fn an_empty_frame_yields_no_view() {
    let none = SpectrumView::new(
        &ramp(0),
        &ramp(0),
        None,
        92_800_000,
        2_000_000,
        1,
        BinAxis::FftBins,
    );
    assert!(none.is_none());
    assert!(
        SpectrumView::new(&ramp(64), &ramp(64), None, 92_800_000, 0, 1, BinAxis::FftBins)
            .is_none(),
        "a zero sample rate has no span to draw"
    );
}

#[test]
fn level_at_reads_the_window_not_the_frame() {
    let v = SpectrumView::new(
        &ramp(1000),
        &ramp(1000),
        None,
        92_800_000,
        2_000_000,
        4,
        BinAxis::FftBins,
    )
    .unwrap();
    let middle = (hertz(v.left_hz()) + bw(&v) / 2.0) as u64;
    assert_eq!(v.level_at(middle), Some(level(500.0)));
    assert!(v.level_at(90_000_000).is_none(), "outside the window");
}

#[test]
fn fft_bin_24_maps_to_canvas_24() {
    let view = SpectrumView::new(
        &ramp(32),
        &ramp(32),
        None,
        100_000_000,
        32_000_000,
        1,
        BinAxis::FftBins,
    )
    .unwrap();
    assert_eq!(hertz(view.freq_of_bin(24)), 108_000_000.0);
    assert_eq!(view.level_at(108_000_000), Some(level(24.0)));
    assert_eq!(freq_to_canvas_x(108_000_000.0, &view), 24.0);
}

#[test]
fn sub_bin_lookup_stays_in_its_fft_interval_at_high_zoom() {
    let view = SpectrumView::new(
        &ramp(256),
        &ramp(256),
        None,
        100_000_000,
        32_000_000,
        32,
        BinAxis::FftBins,
    )
    .unwrap();
    for i in 0..view.n_bins {
        let hz = hertz(view.freq_of_bin(i)) as u64;
        for offset in [0, 62_500, 100_000, 124_999] {
            assert_eq!(view.level_at(hz + offset), Some(view.bins[i]));
        }
    }
}

#[test]
fn bin_frequencies_map_to_their_canvas_positions_across_zoom() {
    for zoom in [0, 1, 2, 3, 4, 32, 64] {
        let view = SpectrumView::new(
            &ramp(32),
            &ramp(32),
            None,
            100_000_000,
            32_000_000,
            zoom,
            BinAxis::FftBins,
        )
        .unwrap();
        for index in 0..view.n_bins {
            let frequency =
                84_000_000.0 + view.bins[index].unwrap() as f64 / 1e6 * 1_000_000.0;
            assert_eq!(hertz(view.freq_of_bin(index)), frequency);
            assert_eq!(view.level_at(frequency as u64), Some(view.bins[index]));
            let x = freq_to_canvas_x(frequency, &view);
            assert!((x - index as f64).abs() < 1e-9, "zoom {zoom} bin {index}");
            assert_eq!(view.bin_end(index), index + 1);
        }
        assert_eq!(
            view.level_at(hertz(view.right_hz()) as u64),
            view.bins.last().copied()
        );
    }
}

fn columns(row_bins: usize, zoom: usize, cols: usize) -> Columns {
    let window = BinAxis::FftBins.window(100_000_000, Some(32_000_000), row_bins, zoom).unwrap();
    Columns::new(window, cols)
}

#[test]
fn band_max_reads_in_range() {
    let row = [level(-90.0), level(-50.0), level(-70.0), level(-60.0)];
    assert_eq!(band_max(&row, 0, 4), level(-50.0), "max over the whole row");
    assert_eq!(band_max(&row, 2, 4), level(-60.0), "max over a sub-range");
}

#[test]
fn band_max_clamps_out_of_range_indices() {
    let row = [level(-90.0), level(-50.0), level(-70.0)];
    assert_eq!(band_max(&row, 1, 99), level(-50.0));
    assert_eq!(band_max(&row, 3, 9), None);
    assert_eq!(band_max(&row, 5, 2), None);
}

#[test]
fn band_max_empty_row_is_floor() {
    assert_eq!(band_max(&[], 0, 4), None);
}

#[test]
fn unzoomed_columns_cover_every_bin_exactly_once() {
    let c = columns(1024, 1, 128);
    let (first, _) = c.range(0);
    let (_, last) = c.range(127);
    assert_eq!(first, 0, "the first column starts at the first bin");
    assert_eq!(last, 1024, "the last column ends at the last bin");
    for col in 1..128 {
        assert_eq!(
            c.range(col).0,
            c.range(col - 1).1,
            "gap or overlap at column {col}"
        );
    }
}

#[test]
fn zoom_keeps_the_centre_slice() {
    let c = columns(1024, 4, 128);
    let (first, _) = c.range(0);
    let (_, last) = c.range(127);
    assert_eq!(first, 384, "a quarter of the way in");
    assert_eq!(last, 640, "and out again: 256 bins around the centre");
}

#[test]
fn columns_follow_the_bin_window_at_uneven_zoom() {
    let axis = BinAxis::FftBins;
    let window = axis.window(100, Some(10), 10, 3).unwrap();
    let columns = Columns::new(window, 3);
    assert_eq!(columns.range(0), (4, 5));
    assert_eq!(columns.range(1), (5, 6));
    assert_eq!(columns.range(2), (6, 7));
    for col in 0..3 {
        assert_eq!(
            axis.frequency_of_bin(window.edges, window.bin_count, col).map(hertz),
            Some(99.0 + col as f64)
        );
    }
}

#[test]
fn a_column_is_never_empty_however_odd_the_geometry() {
    let c = columns(8, 1, 200);
    for col in 0..200 {
        let (lo, hi) = c.range(col);
        assert!(hi > lo, "column {col} is empty");
        assert!(hi <= 8, "column {col} runs past the row");
    }
}

#[test]
fn zoomed_columns_are_nothing_like_the_naive_full_range_mapping() {
    let (row_bins, cols) = (1024usize, 128usize);
    let naive = |col: usize| col * row_bins / cols;

    let unzoomed = columns(row_bins, 1, cols);
    for col in 0..cols {
        assert_eq!(unzoomed.range(col).0, naive(col), "zoom 1 hides the bug");
    }

    let zoomed = columns(row_bins, 4, cols);
    assert_eq!(zoomed.range(0).0, 384);
    assert_eq!(naive(0), 0, "the naive mapping reads a bin that is off screen");
    assert_eq!(zoomed.range(cols / 2).0, naive(cols / 2));
}

#[test]
fn singleton_and_zero_columns_do_not_underflow() {
    let c = columns(1, 32, 40);
    let (lo, hi) = c.range(0);
    assert!(hi > lo);
    let zero_cols = columns(1024, 4, 0);
    let _ = zero_cols.range(0);
}

#[test]
fn high_zoom_sub_bin_frequencies_use_the_same_interval() {
    let axis = BinAxis::FftBins;
    let columns = columns(256, 32, 160);
    let window = columns.window;
    for col in 0..160 {
        let left = window.edges.left_num as f64 / window.edges.den as f64;
        let span = window.edges.span_num as f64 / window.edges.den as f64;
        let frequency = left + col as f64 * span / 160.0;
        let index = axis
            .nearest_bin(window.edges, window.bin_count, Some(frequency as i64))
            .unwrap();
        assert_eq!(columns.range(col).0, window.first_bin + index, "column {col}");
    }
}

#[test]
fn the_newer_of_two_rows_is_the_upper_half() {
    let mut buf = WaterfallBuffer::new(8);
    for x in [1.0, 2.0, 3.0] {
        buf.push(&[level(x); 4], 0);
    }
    let captured = frame(100, 4, vec![level(0.0); 4], BinAxis::FftBins);
    let out = cells::draw(&buf.rows, &captured, 1, 4, 5, Some(2), 0);
    assert_eq!(out.len(), 2, "three rows fill a line and a half");
    assert_eq!(out[0][0].top, Paint::Of(level(3.0)));
    assert_eq!(out[0][0].bottom, Paint::Of(level(2.0)));
    assert_eq!(out[0][2].top, Paint::Cursor);
    assert_eq!(out[1][0].top, Paint::Of(level(1.0)));
    assert_eq!(out[1][0].bottom, Paint::Of(None));
}

const X: Axis = Axis { start: 0, end: 500_000_000 };
const Y: Axis = Axis { start: -60_000_000, end: 0 };

fn tap(at: f64, level: f64) -> Tap {
    Tap { at: db(at), level: db(level) }
}

fn glyphs(rows: &[Vec<StemCell>]) -> Vec<String> {
    rows.iter().map(|r| r.iter().map(|c| c.glyph()).collect()).collect()
}

#[test]
fn an_empty_series_is_nothing_rather_than_a_floor() {
    assert!(draw(&[], X, Y, 40, 10).is_none());
    let off = [tap(900.0, -10.0)];
    assert!(draw(&off, X, Y, 40, 10).is_none());
}

#[test]
fn a_tap_lands_where_its_delay_puts_it() {
    for width in [20usize, 40, 79] {
        assert_eq!(stem::column(db(0.0), X, width), Some(0), "the start of the axis");
        assert_eq!(stem::column(db(499.9), X, width), Some(width - 1), "and the end");
        assert_eq!(stem::column(db(250.0), X, width), Some(width / 2));
        assert_eq!(stem::column(db(-1.0), X, width), None);
        assert_eq!(stem::column(db(500.0), X, width), None);
    }
    assert_eq!(stem::column(db(1.0), X, 0), None, "no columns, no answer");
}

#[test]
fn a_level_lands_on_the_row_its_strength_puts_it() {
    for height in [4usize, 10, 31] {
        assert_eq!(row_of(db(-0.001), Y, height), Some(0), "loudest at the top");
        assert_eq!(
            row_of(db(-60.0), Y, height),
            Some(height - 1),
            "and quietest at the bottom"
        );
        let mid = row_of(db(-30.0), Y, height).unwrap();
        assert!(mid > 0 && mid < height - 1, "height {height}: {mid}");
        assert_eq!(row_of(db(0.0), Y, height), None, "the top edge is exclusive");
        assert_eq!(row_of(db(-61.0), Y, height), None);
    }
}

#[test]
fn a_stem_reaches_from_its_arrival_to_the_baseline() {
    let taps = [tap(100.0, -20.0)];
    let rows = glyphs(&draw(&taps, X, Y, 20, 6).unwrap());
    assert_eq!(rows.len(), 6);
    for r in &rows {
        assert_eq!(r.chars().count(), 20, "{r:?}");
    }
    let col = stem::column(db(100.0), X, 20).unwrap();
    let head = row_of(db(-20.0), Y, 6).unwrap();
    let at = |row: usize| rows[row].chars().nth(col).unwrap();
    assert_eq!(at(head), StemCell::Head.glyph(), "the arrival");
    for r in head + 1..6 {
        assert_eq!(at(r), StemCell::Stalk.glyph(), "the stalk at row {r}");
    }
    for r in 0..head {
        assert_eq!(at(r), ' ', "nothing above the arrival at row {r}");
    }
    for r in &rows {
        assert_eq!(r.chars().nth(col - 1).unwrap(), ' ');
        assert_eq!(r.chars().nth(col + 1).unwrap(), ' ');
    }
}

#[test]
fn two_taps_in_one_column_show_the_stronger() {
    let taps = [tap(10.0, -40.0), tap(11.0, -10.0)];
    let width = 20;
    assert_eq!(stem::column(db(10.0), X, width), stem::column(db(11.0), X, width));
    let rows = draw(&taps, X, Y, width, 8).unwrap();
    let col = stem::column(db(10.0), X, width).unwrap();
    let strong = row_of(db(-10.0), Y, 8).unwrap();
    assert_eq!(rows[strong][col], StemCell::Head);
    let heads = (0..8).filter(|r| rows[*r][col] == StemCell::Head).count();
    assert_eq!(heads, 1);
}

#[test]
fn it_renders_at_every_size_without_overrunning() {
    let taps: Vec<Tap> = (0..40).map(|i| tap(i as f64 * 12.0, -(i as f64))).collect();
    for width in 1..60usize {
        for height in 1..20usize {
            let Some(rows) = draw(&taps, X, Y, width, height) else {
                panic!("{width}x{height}: a series with taps in range drew nothing");
            };
            assert_eq!(rows.len(), height);
            for r in glyphs(&rows) {
                assert_eq!(r.chars().count(), width, "{width}x{height}: {r:?}");
            }
        }
    }
}

fn drops(dropped: u64, session: u64, stale: bool) -> Vec<Piece> {
    buffer::lines(0, Tone::StatusOk, dropped, session, stale).drops
}

#[test]
fn the_feed_shows_how_deep_its_queue_got() {
    let feed = buffer::lines(37_600_000, Tone::StatusWarn, 0, 0, false);
    assert_eq!((feed.heading.title, feed.heading.note), ("FFT FEED", "spectrum queue"));
    assert_eq!(feed.peak.label, "queue peak");
    assert_eq!(feed.peak.figure, "38%");
    assert_eq!(feed.peak.filled, 37_600_000);
    assert_eq!(feed.peak.figure_tone, Tone::StatusWarn);
    assert_eq!((feed.peak.empty_tone, feed.peak.full_tone), (Tone::StatusOk, Tone::StatusCrit));
    assert_eq!(buffer::lines(100_000_000, Tone::StatusCrit, 0, 0, false).peak.figure, "100%");
}

#[test]
fn dropped_blocks_are_told_unless_they_are_old() {
    assert_eq!(line_text(&drops(3, 7, false)), " Blocks dropped 3   session 7");
    assert_eq!(drops(3, 7, false)[2].tone, Tone::StatusCrit);
    assert_eq!(drops(0, 7, false)[2].tone, Tone::StatusWarn);
    assert_eq!(drops(0, 0, false)[2].tone, Tone::StatusOk);
    assert_eq!(line_text(&drops(3, 7, true)), " Blocks dropped \u{2014}");
}
