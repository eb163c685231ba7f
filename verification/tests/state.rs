//! The waterfall's history, its axes, and the numbering of blocks.

use sdrtop::signal::stream::plan_block;
use sdrtop::state::waterfall::{
    BinAxis, BinWindow, Edges, Fraction, WaterfallBuffer, WaterfallPalette, WATERFALL_MIN_ROWS,
};

fn db(x: f64) -> Option<i64> {
    Some((x * 1e6).round() as i64)
}

fn levels(row: &[f64]) -> Vec<Option<i64>> {
    row.iter().map(|x| db(*x)).collect()
}

/// Pushes a row of decibels.
fn push(buf: &mut WaterfallBuffer, row: &[f64]) -> bool {
    buf.push(&levels(row), 0)
}

fn left_hz(w: &BinWindow) -> f64 {
    w.edges.left_num as f64 / w.edges.den as f64
}

fn span_hz(w: &BinWindow) -> f64 {
    w.edges.span_num as f64 / w.edges.den as f64
}

fn hertz(f: Option<Fraction>) -> Option<f64> {
    f.map(|f| f.num as f64 / f.den as f64)
}

/// The edges of a span given in decibel-free hertz; ones that are not finite have
/// no denominator.
fn edges(left: f64, span: f64) -> Edges {
    if left.is_finite() && span.is_finite() {
        Edges { left_num: left as i128, span_num: span as i128, den: 1 }
    } else {
        Edges { left_num: 0, span_num: 0, den: 0 }
    }
}

fn whole(hz: f64) -> Option<i64> {
    if hz.is_finite() {
        Some(hz as i64)
    } else {
        None
    }
}

#[test]
fn the_floor_fills_a_taller_waterfall_than_any_terminal() {
    const ROWS_PER_CELL: usize = 2;
    const TALLEST_PLAUSIBLE_PANEL: usize = 128;
    assert!(WATERFALL_MIN_ROWS >= ROWS_PER_CELL * TALLEST_PLAUSIBLE_PANEL);
}

#[test]
fn the_buffer_keeps_exactly_its_depth() {
    let mut b = WaterfallBuffer::new(4);
    for _ in 0..10 {
        push(&mut b, &[-50.0; 8]);
    }
    assert_eq!(b.rows.len(), 4);
}

#[test]
fn measured_points_keep_endpoints_across_zoom() {
    let axis = BinAxis::MeasuredPoints;
    let full = axis.window(131_500_000, Some(63_000_000), 64, 1).unwrap();
    assert_eq!(left_hz(&full), 100_000_000.0);
    assert_eq!(span_hz(&full), 63_000_000.0);
    assert_eq!(
        hertz(axis.frequency_of_bin(full.edges, full.bin_count, 63)),
        Some(163_000_000.0)
    );

    let zoomed = axis.window(131_500_000, Some(63_000_000), 64, 4).unwrap();
    assert_eq!(zoomed.first_bin, 24);
    assert_eq!(zoomed.bin_count, 16);
    assert_eq!(left_hz(&zoomed), 124_000_000.0);
    assert_eq!(span_hz(&zoomed), 15_000_000.0);
}

#[test]
fn measured_points_keep_odd_span_endpoints() {
    let axis = BinAxis::MeasuredPoints;
    let window = axis.window_from_start(Some(2 * 100_000), Some(3), 4, 1).unwrap();
    assert_eq!(left_hz(&window), 100_000.0);
    assert_eq!(span_hz(&window), 3.0);
    assert_eq!(
        hertz(axis.frequency_of_bin(window.edges, window.bin_count, 3)),
        Some(100_003.0)
    );
    assert_eq!(
        axis.nearest_bin(window.edges, window.bin_count, Some(100_003)),
        Some(3)
    );
}

#[test]
fn fft_bins_keep_n_intervals() {
    let axis = BinAxis::FftBins;
    let window = axis.window(100_000_000, Some(64_000_000), 64, 1).unwrap();
    assert_eq!(axis.interval_count(64), Some(64));
    assert_eq!(window.first_bin, 0);
    assert_eq!(window.bin_count, 64);
    assert_eq!(left_hz(&window), 68_000_000.0);
    assert_eq!(span_hz(&window), 64_000_000.0);
    assert_eq!(
        hertz(axis.frequency_of_bin(window.edges, window.bin_count, 63)),
        Some(131_000_000.0)
    );
    for (frequency, index) in [
        (68_000_000, 0),
        (100_000_000, 32),
        (131_000_000, 63),
        (132_000_000, 63),
    ] {
        assert_eq!(
            axis.nearest_bin(window.edges, window.bin_count, Some(frequency)),
            Some(index)
        );
    }
}

#[test]
fn fft_zoom_preserves_bin_spacing_and_clamps_to_one_bin() {
    let axis = BinAxis::FftBins;
    let window = axis.window(100, Some(10), 10, 3).unwrap();
    assert_eq!((window.first_bin, window.bin_count), (4, 3));
    assert_eq!((left_hz(&window), span_hz(&window)), (99.0, 3.0));
    assert_eq!(axis.window(100, Some(10), 10, 0), axis.window(100, Some(10), 10, 1));
    for count in [1, 10] {
        let window = axis.window(100, Some(10), count, usize::MAX).unwrap();
        assert_eq!(window.bin_count, 1);
        assert_eq!(span_hz(&window), 10.0 / count as f64);
        assert_eq!(
            axis.nearest_bin(window.edges, 1, whole(left_hz(&window))),
            Some(0)
        );
    }
}

#[test]
fn bin_axis_rejects_invalid_bounds() {
    for axis in [BinAxis::FftBins, BinAxis::MeasuredPoints] {
        assert_eq!(axis.interval_count(0), None);
        assert!(axis.window(100, Some(10), 0, 1).is_none());
        assert!(axis.frequency_of_bin(edges(0.0, 10.0), 0, 0).is_none());
        assert!(axis.frequency_of_bin(edges(0.0, 10.0), 4, 4).is_none());
        assert!(axis.nearest_bin(edges(0.0, 10.0), 0, Some(0)).is_none());
        for span in [0.0, -1.0, f64::NAN, f64::INFINITY] {
            assert!(axis.window(100, whole(span), 32, 1).is_none());
            assert!(axis.frequency_of_bin(edges(0.0, span), 4, 0).is_none());
            assert!(axis.nearest_bin(edges(0.0, span), 4, Some(0)).is_none());
        }
        for left in [f64::NAN, f64::INFINITY, f64::NEG_INFINITY] {
            assert!(axis.frequency_of_bin(edges(left, 10.0), 4, 0).is_none());
            assert!(axis.nearest_bin(edges(left, 10.0), 4, Some(0)).is_none());
        }
        for frequency in [-1.0, 11.0, f64::NAN, f64::INFINITY] {
            assert!(axis.nearest_bin(edges(0.0, 10.0), 4, whole(frequency)).is_none());
        }
    }
    assert!(BinAxis::MeasuredPoints.window(100, Some(10), 1, 1).is_none());
}

#[test]
fn push_adds_newest_row_first() {
    let mut buf = WaterfallBuffer::new(4);
    push(&mut buf, &[1.0, 2.0]);
    push(&mut buf, &[3.0, 4.0]);
    assert_eq!(
        buf.rows[0].levels,
        levels(&[3.0, 4.0]),
        "newest row should be at index 0"
    );
    assert_eq!(buf.rows[1].levels, levels(&[1.0, 2.0]));
}

#[test]
fn push_respects_max_rows() {
    let mut buf = WaterfallBuffer::new(3);
    for i in 0..5u32 {
        push(&mut buf, &[i as f64]);
    }
    assert_eq!(buf.rows.len(), 3, "should not exceed max_rows");
}

#[test]
fn paused_ignores_push() {
    let mut buf = WaterfallBuffer::new(4);
    buf.paused = true;
    push(&mut buf, &[1.0, 2.0]);
    assert!(buf.rows.is_empty(), "paused buffer should not accept new rows");
}

#[test]
fn stride_averages_frames() {
    let mut buf = WaterfallBuffer::new(4);
    buf.set_row_stride(2);
    push(&mut buf, &[10.0, 20.0]);
    assert!(buf.rows.is_empty(), "first frame should not push yet");
    push(&mut buf, &[20.0, 40.0]);
    assert_eq!(buf.rows.len(), 1, "second frame should push averaged row");
    assert_eq!(buf.rows[0].levels, levels(&[15.0, 30.0]));
}

#[test]
fn stride_restarts_average_on_bin_count_change() {
    let mut buf = WaterfallBuffer::new(4);
    buf.set_row_stride(3);
    push(&mut buf, &[10.0, 10.0]);
    push(&mut buf, &[20.0, 20.0]);
    assert!(
        !push(&mut buf, &[4.0, 4.0, 4.0]),
        "size change restarts \u{2192} still accumulating"
    );
    assert!(!push(&mut buf, &[6.0, 6.0, 6.0]));
    assert!(
        push(&mut buf, &[8.0, 8.0, 8.0]),
        "third post-change frame materialises"
    );
    assert_eq!(
        buf.rows[0].levels,
        levels(&[6.0, 6.0, 6.0]),
        "average restarts cleanly after a bin-count change"
    );
}

#[test]
fn stride_reset_clears_accumulator() {
    let mut buf = WaterfallBuffer::new(4);
    buf.set_row_stride(3);
    push(&mut buf, &[10.0]);
    buf.set_row_stride(1);
    push(&mut buf, &[5.0]);
    assert_eq!(buf.rows.len(), 1);
    assert_eq!(buf.rows[0].levels, levels(&[5.0]));
}

#[test]
fn push_returns_true_only_when_row_materializes() {
    let mut buf = WaterfallBuffer::new(8);
    assert!(push(&mut buf, &[1.0]));
    assert!(push(&mut buf, &[2.0]));
}

#[test]
fn push_returns_false_while_accumulating() {
    let mut buf = WaterfallBuffer::new(8);
    buf.set_row_stride(2);
    assert!(!push(&mut buf, &[1.0]), "first of a stride-2 pair accumulates only");
    assert!(
        push(&mut buf, &[3.0]),
        "second of the pair materializes the averaged row"
    );
    assert!(!push(&mut buf, &[5.0]));
    assert!(push(&mut buf, &[7.0]));
}

#[test]
fn paused_push_returns_false() {
    let mut buf = WaterfallBuffer::new(8);
    buf.paused = true;
    assert!(!push(&mut buf, &[1.0]));
}

#[test]
fn a_buffer_of_no_rows_keeps_none_and_a_missing_level_stays_missing() {
    let mut none = WaterfallBuffer::new(0);
    assert!(!push(&mut none, &[1.0]));
    let mut buf = WaterfallBuffer::new(4);
    buf.set_row_stride(2);
    buf.push(&[None, db(1.0)], 0);
    buf.push(&[db(3.0), db(3.0)], 7);
    assert_eq!(buf.rows[0].levels, vec![None, db(2.0)]);
    assert_eq!(buf.rows[0].at_ms, 7);
}

#[test]
fn a_zoomed_bin_keeps_its_frequency_and_is_found_by_it() {
    for axis in [BinAxis::FftBins, BinAxis::MeasuredPoints] {
        let full = axis.window(100_000_000, Some(32_000_000), 64, 1).unwrap();
        let zoomed = axis.window(100_000_000, Some(32_000_000), 64, 5).unwrap();
        for j in 0..zoomed.bin_count {
            let near = hertz(axis.frequency_of_bin(zoomed.edges, zoomed.bin_count, j)).unwrap();
            let far =
                hertz(axis.frequency_of_bin(full.edges, 64, zoomed.first_bin + j)).unwrap();
            assert!((near - far).abs() < 1e-3, "{near} {far}");
        }
    }
    let full = BinAxis::FftBins.window(100_000_000, Some(32_000_000), 64, 1).unwrap();
    for j in 0..64 {
        let f = BinAxis::FftBins.frequency_of_bin(full.edges, 64, j).unwrap();
        assert_eq!(
            BinAxis::FftBins.nearest_bin(full.edges, 64, Some((f.num / f.den) as i64)),
            Some(j)
        );
    }
}

#[test]
fn the_palettes_come_round() {
    let mut p = WaterfallPalette::Classic;
    let mut names = Vec::new();
    for _ in 0..4 {
        names.push(p.label());
        p = p.next();
    }
    assert_eq!(names, ["classic", "amber", "ice", "phosphor"]);
    assert_eq!(p, WaterfallPalette::Classic);
}

#[test]
fn a_block_that_follows_the_last_one_is_contiguous() {
    assert!(plan_block(5, false, 4, Some(4)).contiguous);
    assert!(!plan_block(6, false, 4, Some(4)).contiguous);
    assert_eq!(plan_block(0, false, 0, None).dropped, 0);
}

#[test]
fn samples_lost_by_the_driver_break_the_run() {
    assert!(plan_block(5, false, 4, Some(4)).contiguous);
    let p = plan_block(5, true, 4, Some(4));
    assert!(
        !p.contiguous,
        "the audio in this block does not continue the audio in the last one"
    );
    assert_eq!(
        p.dropped, 1,
        "a floor: the driver says samples went, not how many blocks' worth"
    );
}

#[test]
fn a_driver_loss_and_a_channel_loss_are_both_counted() {
    assert_eq!(plan_block(7, true, 4, Some(4)).dropped, 3);
}

#[test]
fn dropped_counts_the_gap_and_not_the_block_itself() {
    assert_eq!(plan_block(7, false, 4, Some(4)).dropped, 2);
    assert_eq!(
        plan_block(5, false, 4, Some(4)).dropped,
        0,
        "back to back loses nothing"
    );
}

#[test]
fn a_stretch_with_the_demod_off_is_not_a_drop() {
    assert_eq!(plan_block(9_000, false, 8_999, None).dropped, 0);
}

#[test]
fn the_sequence_counter_wrapping_does_not_invent_a_drop() {
    let p = plan_block(0, false, u64::MAX, Some(u64::MAX));
    assert!(p.contiguous, "0 follows u64::MAX");
    assert_eq!(p.dropped, 0);
    assert_eq!(plan_block(2, false, u64::MAX, Some(u64::MAX)).dropped, 2);
}
