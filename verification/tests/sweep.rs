//! Sweeps: those a device runs itself, and those the tuner is walked through.

use sdrtop::hardware::DirectSweepConfig;
use sdrtop::state::sweep::{SweepConfig, SweepFrame, SweepState};
use sdrtop::state::waterfall::{BinAxis, FftFrame};
use sdrtop::state::RadioState;
use sdrtop::tasks::band::{BandSweep, TopMove};
use sdrtop::tasks::direct::{DeviceCall, DirectSweepController, SweepNote, DIRECT_SWEEP_RETRY_MS};

#[derive(Default)]
struct TestDevice {
    requests: Vec<Option<DirectSweepConfig>>,
    frequencies: Vec<u64>,
    failures: usize,
    frequency_failures: usize,
    notes: Vec<String>,
}

impl TestDevice {
    fn perform(&mut self, call: DeviceCall) -> Result<(), String> {
        match call {
            DeviceCall::SetDirectSweep(config) => {
                self.requests.push(config);
                if self.failures > 0 {
                    self.failures -= 1;
                    return Err("temporary sweep failure".to_string());
                }
            }
            DeviceCall::SetFrequency(hz) => {
                self.frequencies.push(hz);
                if self.frequency_failures > 0 {
                    self.frequency_failures -= 1;
                    return Err("temporary frequency failure".to_string());
                }
            }
        }
        Ok(())
    }
}

struct State {
    sweep: SweepState,
    radio: RadioState,
}

fn idle_sweep() -> SweepState {
    SweepState {
        active: false,
        config: SweepConfig { start_hz: 88_000_000, stop_hz: 108_000_000, dwell_ms: 200 },
        generation: 0,
        pre_sweep_hz: None,
        pending_tune: None,
        cycle_count: 0,
        cycle_duration_ms: 0,
        positions_done: 0,
        positions_total: 0,
        current_hz: 0,
        current_frame: None,
    }
}

fn active_state(rx_enabled: bool) -> State {
    let mut sweep = idle_sweep();
    sweep.active = true;
    State {
        sweep,
        radio: RadioState {
            frequency: 145_500_000,
            rx_enabled,
            hw_streaming: true,
            sample_rate_hz: 10_000_000,
            bb_filter_hz: 0,
        },
    }
}

/// One update of the controller, with every call it asks for performed.
fn update(
    controller: &mut DirectSweepController,
    state: &mut State,
    device: &mut TestDevice,
    now_ms: u64,
) {
    let mut out = controller.update(&mut state.sweep, &mut state.radio, now_ms);
    loop {
        device.notes.extend(out.notes.iter().map(|n| n.text()));
        out = match out.call {
            None => return,
            Some(call) => match device.perform(call) {
                Ok(()) => controller.on_done(&mut state.sweep, &mut state.radio),
                Err(message) => controller.on_refused(message),
            },
        };
    }
}

#[test]
fn requests_follow_session_and_range_transitions() {
    let mut state = active_state(false);
    let mut device = TestDevice::default();
    let mut controller = DirectSweepController::new();
    let now = 0;
    update(&mut controller, &mut state, &mut device, now);

    state.sweep.config.start_hz = 400_000_000;
    state.sweep.config.stop_hz = 500_000_000;
    update(&mut controller, &mut state, &mut device, now);
    state.sweep.active = false;
    update(&mut controller, &mut state, &mut device, now);

    assert_eq!(device.requests.len(), 3);
    assert_eq!(device.requests[0].unwrap().generation, 1);
    assert_eq!(device.requests[1].unwrap().generation, 2);
    assert_eq!(device.requests[1].unwrap().start_hz, 400_000_000);
    assert_eq!(device.requests[2], None);
    assert_eq!(state.sweep.generation, 3);
}

#[test]
fn failures_retry_after_the_existing_delay() {
    let mut state = active_state(false);
    let mut device = TestDevice { failures: 1, ..TestDevice::default() };
    let mut controller = DirectSweepController::new();
    let now = 0;

    update(&mut controller, &mut state, &mut device, now);
    update(&mut controller, &mut state, &mut device, now + 999);
    assert_eq!(device.requests.len(), 1);
    update(&mut controller, &mut state, &mut device, now + DIRECT_SWEEP_RETRY_MS);
    assert_eq!(device.requests.len(), 2);
}

#[test]
fn dwell_changes_do_not_restart_the_device_sweep() {
    let mut state = active_state(false);
    let mut device = TestDevice::default();
    let mut controller = DirectSweepController::new();
    let now = 0;
    update(&mut controller, &mut state, &mut device, now);

    state.sweep.config.dwell_ms += 50;
    update(&mut controller, &mut state, &mut device, now);
    assert_eq!(device.requests.len(), 1);
    assert_eq!(state.sweep.generation, 1);
}

#[test]
fn a_new_session_clears_the_previous_frame() {
    let mut state = active_state(true);
    state.sweep.config.start_hz = 88_000_000;
    state.sweep.config.stop_hz = 108_000_000;
    state.sweep.current_frame = Some(SweepFrame {
        start_hz: 88_000_000,
        stop_hz: 108_000_000,
        freq_hz: vec![98_000_000],
        peak: vec![Some(-40_000_000)],
        mean: vec![Some(-60_000_000)],
        timestamp_ms: 0,
        cycle_count: 1,
        cycle_duration_ms: 100,
    });
    let mut device = TestDevice::default();
    let mut controller = DirectSweepController::new();
    update(&mut controller, &mut state, &mut device, 0);

    assert!(state.sweep.current_frame.is_none());
}

#[test]
fn pause_state_is_preserved() {
    for started_enabled in [false, true] {
        let mut state = active_state(started_enabled);
        let mut device = TestDevice::default();
        let mut controller = DirectSweepController::new();
        let now = 0;

        update(&mut controller, &mut state, &mut device, now);
        assert!(state.radio.rx_enabled);
        state.radio.rx_enabled = false;
        update(&mut controller, &mut state, &mut device, now);
        assert!(!state.radio.rx_enabled);
        state.sweep.active = false;
        update(&mut controller, &mut state, &mut device, now);
        assert_eq!(state.radio.rx_enabled, started_enabled);
    }
}

#[test]
fn tuner_restoration_keeps_exact_jumps() {
    let mut state = active_state(false);
    let mut device = TestDevice::default();
    let mut controller = DirectSweepController::new();
    let now = 0;
    update(&mut controller, &mut state, &mut device, now);

    state.sweep.pending_tune = Some(433_920_001);
    state.sweep.active = false;
    update(&mut controller, &mut state, &mut device, now);
    assert_eq!(device.frequencies.as_slice(), [433_920_001]);
    assert_eq!(state.radio.frequency, 433_920_001);
    assert!(state.radio.rx_enabled);
    assert_eq!(state.sweep.pre_sweep_hz, None);
}

#[test]
fn reactivation_finishes_a_pending_exit_before_restarting() {
    let mut state = active_state(false);
    let mut device = TestDevice::default();
    let mut controller = DirectSweepController::new();
    let now = 0;
    update(&mut controller, &mut state, &mut device, now);

    device.frequency_failures = 1;
    state.sweep.active = false;
    update(&mut controller, &mut state, &mut device, now);
    assert!(controller.pending_exit.is_some());

    state.sweep.active = true;
    update(&mut controller, &mut state, &mut device, now + DIRECT_SWEEP_RETRY_MS);
    assert!(controller.pending_exit.is_none());
    assert!(controller.was_active);
    assert_eq!(device.requests.len(), 3);
    assert!(device.requests[0].is_some());
    assert_eq!(device.requests[1], None);
    assert!(device.requests[2].is_some());
}

#[test]
fn a_sweep_wanted_while_an_exit_runs_waits_for_the_next_update() {
    let mut state = active_state(false);
    let mut device = TestDevice::default();
    let mut controller = DirectSweepController::new();
    update(&mut controller, &mut state, &mut device, 0);

    state.sweep.active = false;
    let out = controller.update(&mut state.sweep, &mut state.radio, 100);
    assert_eq!(out.call, Some(DeviceCall::SetDirectSweep(None)));
    state.sweep.active = true;
    let out = controller.on_done(&mut state.sweep, &mut state.radio);
    assert_eq!(out.call, Some(DeviceCall::SetFrequency(145_500_000)));
    let out = controller.on_done(&mut state.sweep, &mut state.radio);
    assert_eq!(out.call, None, "the update began with no sweep wanted");
    assert_eq!(out.notes.iter().map(|n| n.text()).collect::<Vec<_>>(), ["Sweep stopped"]);
    assert!(!controller.was_active);
    assert!(!state.radio.rx_enabled);

    let out = controller.update(&mut state.sweep, &mut state.radio, 200);
    assert!(matches!(out.call, Some(DeviceCall::SetDirectSweep(Some(_)))));
    assert!(controller.was_active);
}

#[test]
fn a_restart_asks_for_the_band_the_update_began_with() {
    let mut state = active_state(false);
    let mut device = TestDevice { frequency_failures: 1, ..TestDevice::default() };
    let mut controller = DirectSweepController::new();
    update(&mut controller, &mut state, &mut device, 0);
    state.sweep.active = false;
    update(&mut controller, &mut state, &mut device, 100);
    assert!(controller.pending_exit.is_some());

    state.sweep.active = true;
    let out = controller.update(&mut state.sweep, &mut state.radio, 1_100);
    assert_eq!(out.call, Some(DeviceCall::SetFrequency(145_500_000)));
    state.sweep.active = false;
    state.sweep.config.start_hz = 400_000_000;
    state.sweep.config.stop_hz = 500_000_000;
    let out = controller.on_done(&mut state.sweep, &mut state.radio);
    let Some(DeviceCall::SetDirectSweep(Some(config))) = out.call else {
        panic!("{:?}", out.call);
    };
    assert_eq!((config.start_hz, config.stop_hz), (88_000_000, 108_000_000));
    assert_eq!(
        out.notes.iter().map(|n| n.text()).collect::<Vec<_>>(),
        ["Sweep stopped", "Sweep started: 88.0\u{2013}108.0 MHz"]
    );
    let out = controller.on_refused("busy".to_string());
    assert_eq!(out.notes.len(), 1);
    assert_eq!(controller.failed.as_ref().map(|f| f.at_ms), Some(1_100));
}

#[test]
fn an_exit_keeps_its_order_however_often_it_fails() {
    let mut state = active_state(false);
    let mut device = TestDevice::default();
    let mut controller = DirectSweepController::new();
    update(&mut controller, &mut state, &mut device, 0);
    state.sweep.active = false;
    device.requests.clear();
    device.failures = 2;
    device.frequency_failures = 1;
    for now in (100..=3_500).step_by(100) {
        let (requests, tunings) = (device.requests.len(), device.frequencies.len());
        update(&mut controller, &mut state, &mut device, now);
        assert!(device.frequencies.is_empty() || device.requests.len() == 3, "at {now}");
        if [100, 1_100].contains(&now) {
            assert_eq!((device.requests.len(), device.frequencies.len()), (requests + 1, tunings));
        } else if now == 2_100 {
            assert_eq!((device.requests.len(), device.frequencies.len()), (requests + 1, 1));
        } else if now == 3_100 {
            assert_eq!((device.requests.len(), device.frequencies.len()), (requests, 2));
        } else {
            assert_eq!((device.requests.len(), device.frequencies.len()), (requests, tunings));
        }
        assert_eq!(state.radio.rx_enabled, now < 3_100, "receiving until the exit is through");
    }
    assert_eq!(device.requests, vec![None; 3]);
    assert_eq!(device.frequencies, vec![145_500_000; 2]);
    assert!(controller.pending_exit.is_none());
}

#[test]
fn the_log_tells_the_course_of_a_device_sweep() {
    let mut state = active_state(false);
    let mut device = TestDevice { failures: 2, ..TestDevice::default() };
    let mut controller = DirectSweepController::new();
    update(&mut controller, &mut state, &mut device, 0);
    update(&mut controller, &mut state, &mut device, 1_000);
    update(&mut controller, &mut state, &mut device, 2_000);
    state.sweep.active = false;
    update(&mut controller, &mut state, &mut device, 3_000);
    let failures = device.notes.iter().filter(|n| n.contains("temporary sweep failure")).count();
    assert_eq!(failures, 1, "the same failure is told once: {:?}", device.notes);
    assert!(device.notes.contains(&"Sweep started: 88.0\u{2013}108.0 MHz".to_string()));
    assert_eq!(device.notes.last().map(String::as_str), Some(SweepNote::Stopped.text().as_str()));
    assert_eq!(state.radio.frequency, 145_500_000);
}

fn spectrum(center_hz: u64, rate_hz: i64, bins: Vec<Option<i64>>) -> FftFrame {
    FftFrame {
        peak_hold: bins.clone(),
        bins,
        noise_floor: Some(-100_000_000),
        center_freq_hz: center_hz,
        axis_start_half_hz: 2 * center_hz as i64 - rate_hz,
        sample_rate_hz: rate_hz,
        timestamp_ms: 0,
        peak_to_nf: 0,
        channel_power: None,
        occupied_bw_hz: 0,
        enbw_hz: 0,
        bin_axis: BinAxis::FftBins,
    }
}

#[test]
fn a_walked_sweep_records_each_position_and_goes_home() {
    let mut state = active_state(false);
    let mut walk = BandSweep::new();
    let (step, note) = walk.top(&mut state.sweep, &mut state.radio, 2, 0);
    assert!(matches!(step, TopMove::Cycle));
    assert!(matches!(note, Some(SweepNote::Started { .. })));
    assert_eq!(state.sweep.pre_sweep_hz, Some(145_500_000));
    assert!(state.radio.rx_enabled);
    for (i, hz) in [90_000_000u64, 100_000_000].iter().enumerate() {
        let tuned = walk.start_position(
            &mut state.sweep,
            &mut state.radio,
            i,
            *hz,
            1_000_000,
            6_000_000_000,
        );
        assert_eq!(tuned, Some(*hz));
        for (level, at) in [(-40_000_000, 1_000), (-60_000_000, 1_010)] {
            let mut frame = spectrum(*hz, 10_000_000, vec![Some(level); 16]);
            frame.timestamp_ms = at;
            walk.harvest(&frame, *hz, at);
        }
        walk.finish_position(*hz);
    }
    state.sweep.config.stop_hz = 200_000_000;
    walk.finish_cycle(&mut state.sweep, 2, 2_000);
    let frame = state.sweep.current_frame.as_ref().expect("a pass was made");
    assert_eq!(frame.stop_hz, 108_000_000, "what the pass was made with");
    assert_eq!(frame.peak.len(), frame.freq_hz.len());
    assert!(frame.freq_hz.windows(2).all(|w| w[0] <= w[1]));
    assert!(frame.peak.iter().all(|l| *l == Some(-40_000_000)), "{:?}", frame.peak);
    assert!(frame.mean.iter().all(|l| *l == Some(-50_000_000)), "{:?}", frame.mean);
    assert_eq!(state.sweep.cycle_count, 1);
    state.sweep.active = false;
    let (step, _) = walk.top(&mut state.sweep, &mut state.radio, 2, 3_000);
    assert!(matches!(step, TopMove::Restore { tune_hz: 145_500_000, .. }));
    assert_eq!(state.radio.frequency, 145_500_000);
    assert!(!state.radio.rx_enabled);
}
