//! Quitting, saving and drawing.

use sdrtop::event::{
    execute_device_option, start_device_option, DeviceOptionRequest, OptionStart, OptionStep,
};
use sdrtop::input::export::{export_section, ExportAttempt, Written};
use sdrtop::input::plots::{InputMode, SpectrumState, SpectrumStyle};
use sdrtop::session::{
    draw, finish_session, restore_noise_sweep, restore_sweep_tuning, Closing, Deck, KeyAction,
    NoiseSweepRestore, Session, SessionMove, Visible, Wishes,
};
use sdrtop::signal::fft::publish::SpectrumMarker;
use sdrtop::state::net::{NetMode, NetState};
use sdrtop::state::sweep::{SweepConfig, SweepState};
use sdrtop::state::waterfall::{WaterfallPalette, WaterfallState};
use sdrtop::state::RadioState;

fn sweep() -> SweepState {
    SweepState {
        active: false,
        config: SweepConfig { start_hz: 88_000_000, stop_hz: 108_000_000, dwell_ms: 50 },
        generation: 0,
        pre_sweep_hz: None,
        pending_tune: None,
        cycle_count: 0,
        cycle_duration_ms: 0,
        positions_done: 0,
        positions_total: 0,
        current_hz: 0,
        current_frame: None,
    }
}

fn radio(frequency: u64) -> RadioState {
    RadioState {
        frequency,
        rx_enabled: true,
        hw_streaming: true,
        sample_rate_hz: 10_000_000,
        bb_filter_hz: 0,
    }
}

fn closing(frequency: u64) -> Closing {
    Closing {
        noise_sweep: None,
        gains: vec![16, 20],
        sweep: sweep(),
        net: NetState::default(),
        radio: radio(frequency),
    }
}

fn spectrum() -> SpectrumState {
    SpectrumState {
        step_hz: 100_000,
        y_min: -120_000_000,
        y_max: 0,
        cursor_freq: None,
        markers: vec![SpectrumMarker {
            freq_hz: 99_500_000,
            label: "M1".to_string(),
            channel_bw_hz: Some(25_000),
            measured_bw_hz: None,
        }],
        pending_marker: None,
        style: SpectrumStyle::Fill,
        input_mode: InputMode::Normal,
        input_buf: String::new(),
    }
}

fn deck() -> Deck {
    Deck {
        amp_enabled: true,
        recall_hz: vec![Some(92_800_000), None],
        active_preset: "full".to_string(),
        theme_base: "sdr".to_string(),
        theme_overrides: vec![("label".to_string(), "#aabbcc".to_string())],
        presets: vec![("mine".to_string(), "panels = []".to_string())],
    }
}

fn view() -> WaterfallState {
    WaterfallState::new(256, WaterfallPalette::Ice, -120_000_000, 0)
}

fn request() -> DeviceOptionRequest {
    DeviceOptionRequest {
        request_id: 1,
        id: "bandwidth".into(),
        label: "Bandwidth".into(),
        choice: "Wide".into(),
    }
}

/// While a sweep runs the frequency is wherever the scan has got to. What is saved
/// is where the user was tuned, because the tuner goes back first.
#[test]
fn quitting_gives_the_tuner_back_before_saving_the_config() {
    let mut state = closing(104_250_000);
    state.sweep.active = true;
    state.sweep.pre_sweep_hz = Some(92_800_000);
    let (teardown, saved) = finish_session(&mut state, &view(), &spectrum(), deck(), 2, true, true);
    assert_eq!(teardown.tune_hz, Some(92_800_000));
    let saved = saved.unwrap();
    assert_eq!(saved.frequency_hz, 92_800_000);
    assert_eq!(saved.waterfall_max_rows, 256);
    assert_eq!(saved.waterfall_palette, WaterfallPalette::Ice);
    assert_eq!(saved.spectrum_style, SpectrumStyle::Fill);
    assert_eq!(saved.markers[0].label, "M1");
    assert_eq!(saved.sweep.dwell_ms, 50);
    assert!(saved.deck.amp_enabled);
    assert_eq!(saved.deck.theme_overrides, deck().theme_overrides, "not erased");
    assert_eq!(saved.deck.presets, deck().presets);
}

#[test]
fn quitting_waits_for_a_pending_device_option() {
    let mut s = Session::new(0);
    assert_eq!(s.on_key(KeyAction::Quit, true, 40), SessionMove::Stay { redraw: true });
    assert!(!s.takes_keys());
    assert_eq!(s.on_key(KeyAction::Quit, false, 40), SessionMove::Stay { redraw: false });
    assert_eq!(s.on_option_complete(true), SessionMove::Stay { redraw: true });
    assert_eq!(s.on_option_complete(false), SessionMove::Finish);

    let mut s = Session::new(0);
    assert_eq!(s.on_option_complete(false), SessionMove::Stay { redraw: true });
    assert_eq!(s.on_key(KeyAction::Quit, false, 0), SessionMove::Finish);
}

#[test]
fn failed_device_option_set_does_not_refresh() {
    match execute_device_option(Err("device rejected choice".to_string())) {
        OptionStep::Failed(why) => assert_eq!(why, "device rejected choice"),
        OptionStep::Refresh => panic!("a refused change was read back"),
    }
    assert!(matches!(execute_device_option(Ok(())), OptionStep::Refresh));
}

#[test]
fn every_scanner_gives_the_tuner_back_on_quit() {
    let mut s = sweep();
    let mut net = NetState::default();
    let mut r = radio(2_425_000_000);
    net.pre_survey_hz = Some(92_800_000);
    assert_eq!(restore_sweep_tuning(&mut s, &mut net, &mut r, true), Some(92_800_000));
    assert_eq!(r.frequency, 92_800_000);
    assert_eq!(net.pre_survey_hz, None);

    s.pre_sweep_hz = Some(433_920_000);
    assert_eq!(restore_sweep_tuning(&mut s, &mut net, &mut r, true), Some(433_920_000));
    assert_eq!(r.frequency, 433_920_000);
    assert_eq!(s.pre_sweep_hz, None);
}

#[test]
fn iq_imbalance_zero_for_balanced() {
    let n = 1000_f64;
    let i_rms = (500_000_f64 / n).sqrt();
    let q_rms = (500_000_f64 / n).sqrt();
    let imbalance = (20.0 * (i_rms / q_rms).log10()) as f32;
    assert!(imbalance.abs() < 0.001, "expected ~0, got {}", imbalance);
}

#[test]
fn iq_imbalance_positive_when_i_stronger() {
    let n = 1000_f64;
    let i_rms = (800_000_f64 / n).sqrt();
    let q_rms = (200_000_f64 / n).sqrt();
    let imbalance = (20.0 * (i_rms / q_rms).log10()) as f32;
    assert!(imbalance > 0.0, "expected positive, got {}", imbalance);
}

#[test]
fn adc_saturation_pct_full() {
    let acc_saturated = 200_u64;
    let acc_samples = 100_u64;
    let saturable = acc_samples * 2;
    let pct = (acc_saturated as f32 / saturable as f32) * 100.0;
    assert!((pct - 100.0).abs() < 0.01, "expected 100%, got {}", pct);
}

#[test]
fn a_quit_without_a_scan_moves_nothing() {
    let mut state = closing(100_000_000);
    let (teardown, saved) = finish_session(&mut state, &view(), &spectrum(), deck(), 2, true, true);
    assert_eq!(teardown.tune_hz, None);
    assert_eq!(teardown.stage, None);
    assert_eq!(saved.unwrap().frequency_hz, 100_000_000);
}

#[test]
fn a_locked_channel_and_a_jump_stay() {
    let mut s = sweep();
    let mut net = NetState::default();
    let mut r = radio(2_437_000_000);
    net.mode = NetMode::Lock;
    net.pre_survey_hz = Some(92_800_000);
    assert_eq!(restore_sweep_tuning(&mut s, &mut net, &mut r, true), None);
    assert_eq!(r.frequency, 2_437_000_000);
    s.pending_tune = Some(98_100_000);
    s.pre_sweep_hz = Some(92_800_000);
    assert_eq!(restore_sweep_tuning(&mut s, &mut net, &mut r, false), None, "no device");
    assert_eq!(r.frequency, 98_100_000);
}

#[test]
fn nothing_is_saved_without_a_device_or_a_place() {
    for (device, path) in [(false, true), (true, false), (false, false)] {
        let mut state = closing(100_000_000);
        let (_, saved) = finish_session(&mut state, &view(), &spectrum(), deck(), 2, device, path);
        assert!(saved.is_none());
    }
}

#[test]
fn a_swept_stage_goes_back_and_is_saved_as_it_was() {
    let mut state = closing(100_000_000);
    state.noise_sweep = Some(NoiseSweepRestore { stage: 1, gain_db: 30 });
    let (teardown, saved) = finish_session(&mut state, &view(), &spectrum(), deck(), 2, true, true);
    assert_eq!(teardown.stage, Some((1, 30)));
    assert_eq!(saved.unwrap().gains, vec![16, 30]);
    assert!(state.noise_sweep.is_none());

    let mut restore = Some(NoiseSweepRestore { stage: 5, gain_db: 30 });
    let mut gains = vec![1, 2];
    assert_eq!(restore_noise_sweep(&mut restore, &mut gains, 2, true), None);
    assert_eq!(gains, vec![1, 2]);
    assert!(restore.is_none());
}

#[test]
fn keys_draw_no_faster_than_the_frames() {
    let mut s = Session::new(100);
    assert_eq!(s.on_key(KeyAction::Continue, false, 132), SessionMove::Stay { redraw: false });
    assert_eq!(s.on_key(KeyAction::Continue, false, 133), SessionMove::Stay { redraw: true });
    s.drawn(133);
    match s.on_key(KeyAction::ApplyDeviceOption(request()), false, 140) {
        SessionMove::Start { request, redraw } => {
            assert_eq!(request.choice, "Wide");
            assert!(!redraw);
        }
        _ => panic!("the change was not started"),
    }
    assert_eq!(s.on_tick(), SessionMove::Stay { redraw: true });
}

#[test]
fn a_change_without_a_device_is_answered_at_once() {
    match start_device_option(request(), false) {
        OptionStart::Complete(done) => {
            assert_eq!(done.request.id, "bandwidth");
            assert_eq!(done.result.unwrap_err(), "device is unavailable");
        }
        OptionStart::Run(_) => panic!("there is nobody to ask"),
    }
    assert!(matches!(start_device_option(request(), true), OptionStart::Run(_)));
}

#[test]
fn the_menu_owns_the_screen_until_the_deck_was_seen() {
    let visible = Visible {
        sweep_panel: false,
        micro_sweep_panel: true,
        fm_demod: true,
        command_rail_focused: false,
    };
    let wishes = Wishes {
        demod_on: false,
        show_footer: false,
        input_mode: InputMode::Normal,
        lab_mode: true,
        log_overlay: true,
        menu_open: true,
        waiting_to_quit: false,
    };
    let p = draw(visible, wishes, 80, 24, false);
    assert!(p.sweep_active && !p.demod_enabled && p.hide_footer && p.steeled);
    assert!(!p.log_overlay && !p.waiting_line);
    assert_eq!(p.menu_size, Some((80, 24)));
    assert!(!p.menu_floats && !p.deck_shown);
    let p = draw(visible, Wishes { menu_open: false, ..wishes }, 80, 24, false);
    assert!(p.deck_shown && p.menu_size.is_none());
    let p = draw(visible, wishes, 80, 24, true);
    assert_eq!(p.menu_size, Some((64, 19)));
    assert!(p.menu_floats && p.deck_shown);
    let p = draw(
        visible,
        Wishes { input_mode: InputMode::MarkerNameInput, waiting_to_quit: true, ..wishes },
        1,
        1,
        true,
    );
    assert_eq!(p.menu_size, Some((1, 1)));
    assert!(!p.hide_footer && p.waiting_line);
}

#[test]
fn the_log_says_what_became_of_an_export() {
    let wrote = |rows: usize, note: Option<&str>| {
        Ok(Written {
            path: "/tmp/a.csv".to_string(),
            rows,
            note: note.map(|n| n.to_string()),
        })
    };
    let files = ExportAttempt::Files(vec![
        wrote(83, None),
        wrote(0, None),
        wrote(0, Some("no band measurement yet")),
        Err("full".to_string()),
    ]);
    assert!(export_section(false, "/x", &files).is_none());
    assert_eq!(
        export_section(true, "/x", &files).unwrap(),
        [
            "Export: /tmp/a.csv (83 rows)",
            "Export: /tmp/a.csv (0 rows)",
            "Export: /tmp/a.csv (nothing to write, no band measurement yet)",
            "Export failed: full",
        ]
    );
    let refused = ExportAttempt::NoDirectory("denied".to_string());
    assert_eq!(
        export_section(true, "/x", &refused).unwrap(),
        ["Export: cannot use /x: denied"]
    );
}
