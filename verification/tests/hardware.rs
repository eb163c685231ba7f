//! The devices: their options, their limits and the analyser's protocol.

use sdrtop::hardware::native::{hackrf, rtlsdr};
use sdrtop::hardware::tinysa::abort::{
    abort_command, AbortDrain, DrainError, DrainStep, PortEvent, ScanDrain, MAX_RESPONSE_BYTES,
};
use sdrtop::hardware::tinysa::discovery::{
    list_entries, matching_product, SerialEntry, UsbAttributes,
};
use sdrtop::hardware::tinysa::input::{list, parse_selector, BasicInput, SelectorError};
use sdrtop::hardware::tinysa::protocol::{
    parse_identity, parse_scan_frame, parse_text_frame, parse_zero, prompt_bytes, scan_frequencies,
    FrameError, IdentityError, Model, TextError, ZeroError,
};
use sdrtop::hardware::tinysa::reader::{scan_command_bytes, ReadStep, ScanError, ScanReader};
use sdrtop::hardware::tinysa::scan::{
    capabilities, centered_window, default_frequency, display_frequencies, frequency_range,
    input_mode_command, normalize_span, scan_inactivity_timeout, startup_settings,
    validate_direct_sweep, window_center, GridError, ScanSettings, Segment, SpanError, SpurMode,
    DEFAULT_POINTS,
};
use sdrtop::hardware::tinysa::startup::{
    drain_startup, LineEvent, LineStep, ReplyError, ReplyReader, ReplyStep, Startup, StartupError,
    StartupStep,
};
use sdrtop::hardware::tinysa::worker::{
    interrupts_scan, scan_error_text, Command, CommandError, NextMove, Reply, ScanFailure, Worker,
};
use sdrtop::hardware::{
    check_device_options, DeviceOption, DirectSweepConfig, LevelUnit, OptionFault, PowerTraceTarget,
};

fn option(id: &str, choices: &[&str], selected: &str) -> DeviceOption {
    DeviceOption {
        id: id.into(),
        label: "Bandwidth".into(),
        choices: choices.iter().map(|choice| (*choice).into()).collect(),
        selected_choice: selected.into(),
        integer_range: None,
    }
}

/// Fails as a debug build does on a list of options no device may report.
fn assert_device_options(options: &[DeviceOption]) {
    if let Some(fault) = check_device_options(options) {
        panic!("{}", fault.message(options));
    }
}

#[test]
#[should_panic(expected = "must advertise a choice")]
fn option_contract_rejects_an_empty_choice_list() {
    assert_device_options(&[option("bandwidth", &[], "")]);
}

#[test]
#[should_panic(expected = "selected an unavailable choice")]
fn option_contract_rejects_an_unavailable_selection() {
    assert_device_options(&[option("bandwidth", &["Narrow", "Wide"], "Missing")]);
}

#[test]
#[should_panic(expected = "must be unique")]
fn option_contract_rejects_duplicate_ids() {
    assert_device_options(&[
        option("bandwidth", &["Narrow"], "Narrow"),
        option("bandwidth", &["Wide"], "Wide"),
    ]);
}

#[test]
fn options_without_a_fault_pass_and_the_first_fault_is_named() {
    assert_eq!(check_device_options(&[]), None);
    assert_eq!(
        check_device_options(&[option("a", &["x"], "x"), option("b", &["x", "y"], "y")]),
        None
    );
    assert_eq!(
        check_device_options(&[option("a", &["x"], "x"), option("a", &["x"], "y")]),
        Some(OptionFault::UnavailableSelection { index: 1 })
    );
}

enum Script {
    Bytes(&'static [u8]),
    Delay(u128),
}

/// Feeds a script to a drain and tells how long it took and how it ended.
fn drain(progress: ScanDrain, script: &[Script], timeout_ms: u128) -> (u128, DrainStep, usize) {
    let mut drain = AbortDrain::new(progress);
    let mut waited = 0;
    let mut fed = 0;
    for step in script {
        match step {
            Script::Bytes(bytes) => {
                for b in bytes.iter() {
                    fed += 1;
                    match drain.feed(PortEvent::Byte(*b), timeout_ms) {
                        DrainStep::ReadMore => {}
                        end => return (waited, end, fed),
                    }
                }
            }
            Script::Delay(ms) => {
                waited += ms;
                match drain.feed(PortEvent::Silent(*ms), timeout_ms) {
                    DrainStep::ReadMore => {}
                    end => return (waited, end, fed),
                }
            }
        }
    }
    (waited, drain.feed(PortEvent::Silent(timeout_ms), timeout_ms), fed)
}

#[test]
fn cancellation_waits_for_the_delayed_frame_close_before_the_next_request() {
    assert_eq!(abort_command(), b"abort\r");
    let (waited, end, fed) = drain(
        ScanDrain::Records(2),
        &[
            Script::Bytes(b"x}xxch"),
            Script::Bytes(b"abort\r\nch> "),
            Script::Delay(225),
            Script::Bytes(b"}"),
        ],
        1_000,
    );
    assert!(waited >= 200);
    assert_eq!(end, DrainStep::Done);
    assert_eq!(fed, 18, "not done before the frame closed");
}

#[test]
fn cancellation_after_the_frame_waits_only_for_the_abort_reply() {
    let (waited, end, _) = drain(
        ScanDrain::FrameClosed,
        &[
            Script::Bytes(b"ch> "),
            Script::Delay(225),
            Script::Bytes(b"abort\r\nch> "),
        ],
        1_000,
    );
    assert!(waited >= 200);
    assert_eq!(end, DrainStep::Done);
    assert_eq!(prompt_bytes(), b"ch> ");
}

#[test]
fn cancellation_times_out_when_the_active_frame_never_closes() {
    let (_, end, _) = drain(ScanDrain::Records(1), &[Script::Bytes(b"abort\r\nch> ")], 10);
    match end {
        DrainStep::Failed(why) => assert!(why.message().contains("timed out")),
        _ => panic!("the drain did not fail"),
    }
}

#[test]
fn every_way_a_drain_fails_has_its_sentence() {
    let fails = |progress, bytes: &'static [u8]| match drain(progress, &[Script::Bytes(bytes)], 10)
    {
        (_, DrainStep::Failed(why), _) => why,
        _ => panic!("the drain did not fail"),
    };
    assert_eq!(fails(ScanDrain::Records(0), b"x"), DrainError::MalformedFrame);
    assert_eq!(fails(ScanDrain::Records(1), b"abx"), DrainError::MalformedReply);
    let mut d = AbortDrain::new(ScanDrain::FrameClosed);
    assert_eq!(
        d.feed(PortEvent::Disconnected, 10),
        DrainStep::Failed(DrainError::Disconnected)
    );
    assert_eq!(
        AbortDrain::new(ScanDrain::FrameClosed).feed(PortEvent::Failed, 10),
        DrainStep::Failed(DrainError::ReadFailed)
    );
    assert_eq!(
        AbortDrain::new(ScanDrain::FrameClosed).feed(PortEvent::Interrupted, 10),
        DrainStep::ReadMore
    );
    let mut d = AbortDrain::new(ScanDrain::FrameClosed);
    let mut last = DrainStep::ReadMore;
    for _ in 0..=MAX_RESPONSE_BYTES {
        last = d.feed(PortEvent::Byte(b'z'), 10);
        if last != DrainStep::ReadMore {
            break;
        }
    }
    assert_eq!(last, DrainStep::Failed(DrainError::TooLong));
    assert_eq!(DrainError::TooLong.message(), "tinySA abort drain exceeded 131072 bytes");
}

#[test]
fn basic_inputs_expose_only_their_physical_connector_range() {
    assert_eq!(
        frequency_range(Model::Basic, BasicInput::Low),
        (100_000, 350_000_000)
    );
    assert_eq!(
        frequency_range(Model::Basic, BasicInput::High),
        (240_000_000, 959_000_000)
    );
    assert_eq!(
        default_frequency(Model::Basic, BasicInput::High),
        240_000_000
    );
}

#[test]
fn startup_uses_safe_automatic_controls() {
    let (ultra, commands) = startup_settings(Model::Zs407);
    assert_eq!(ultra.points, DEFAULT_POINTS);
    assert_eq!(ultra.rbw_hz, None);
    assert_eq!(
        commands,
        [
            "ultra on",
            "ultra auto",
            "rbw auto",
            "attenuate auto",
            "lna off",
            "lna2 auto",
            "agc auto",
            "spur auto",
        ]
    );
    let (basic, commands) = startup_settings(Model::Basic);
    assert_eq!(basic.spur, SpurMode::On);
    assert_eq!(commands, ["rbw auto", "attenuate auto", "spur on"]);
}

#[test]
fn centered_windows_keep_the_requested_span_inside_the_model_range() {
    let low_edge = centered_window(100_000, 10_000_000, 100_000, 960_000_000);
    assert_eq!(low_edge, (100_000, 10_100_000));
    assert_eq!(low_edge.0 + (low_edge.1 - low_edge.0) / 2, 5_100_000);
    assert_eq!(
        centered_window(960_000_000, 10_000_000, 100_000, 960_000_000),
        (950_000_000, 960_000_000)
    );
}

#[test]
fn a_span_too_narrow_for_the_point_count_is_clamped() {
    assert_eq!(
        normalize_span(Some(1_000), 959_900_000, DEFAULT_POINTS).unwrap(),
        DEFAULT_POINTS as u64
    );
    let frequencies =
        scan_frequencies(100_000, 100_000 + DEFAULT_POINTS as u64, DEFAULT_POINTS);
    assert!(frequencies.windows(2).all(|pair| pair[1] > pair[0]));
}

#[test]
fn spans_are_rounded_and_bounded_and_bad_ones_refused() {
    assert_eq!(normalize_span(Some(10_000_499), 1_000_000, 450), Ok(10_000));
    assert_eq!(normalize_span(Some(10_000_500), 1_000_000, 450), Ok(10_001));
    assert_eq!(normalize_span(Some(i64::MAX), 1_000_000, 450), Ok(1_000_000));
    for bad in [None, Some(0), Some(-1)] {
        assert_eq!(normalize_span(bad, 1_000_000, 450), Err(SpanError::NotPositive));
    }
    assert_eq!(
        SpanError::NotPositive.message(),
        "tinySA span must be a positive finite value"
    );
}

#[test]
fn firmware_frequencies_use_an_endpoint_preserving_display_grid() {
    let measured = scan_frequencies(100_000_000, 200_000_000, 450);
    assert!(
        measured.windows(2).map(|pair| pair[1] - pair[0]).min()
            != measured.windows(2).map(|pair| pair[1] - pair[0]).max()
    );
    let displayed = display_frequencies(&measured).unwrap();
    assert_eq!(displayed.first(), measured.first());
    assert_eq!(displayed.last(), measured.last());
    let span = displayed.last().unwrap() - displayed.first().unwrap();
    let intervals = displayed.len() as u64 - 1;
    let lower_step = span / intervals;
    let upper_step = span.div_ceil(intervals);
    assert!(displayed.windows(2).all(|pair| {
        let step = pair[1] - pair[0];
        step == lower_step || step == upper_step
    }));
}

#[test]
fn display_grid_rejects_duplicate_firmware_frequencies() {
    assert!(display_frequencies(&[100_000, 100_000, 100_001]).is_err());
    assert!(display_frequencies(&[100_002, 100_001, 100_000]).is_err());
}

#[test]
fn a_grid_needs_two_frequencies() {
    assert_eq!(display_frequencies(&[]), Err(GridError::NoFrequencies));
    assert_eq!(display_frequencies(&[5]), Err(GridError::TooNarrow { points: 1 }));
    assert_eq!(display_frequencies(&[5, 4]), Err(GridError::NotAscending));
    assert_eq!(display_frequencies(&[0, 1, 5, 10]), Ok(vec![0, 3, 7, 10]));
    for fault in [
        GridError::NoFrequencies,
        GridError::NotAscending,
        GridError::TooNarrow { points: 1 },
    ] {
        assert!(fault.message().contains("tinySA"), "{}", fault.message());
    }
}

#[test]
fn an_edge_shift_becomes_the_next_scan_center() {
    let (start, stop) = centered_window(100_000, 10_000_000, 100_000, 960_000_000);
    let effective_center = window_center(start, stop);
    assert_eq!(effective_center, 5_100_000);
    assert_eq!(
        centered_window(effective_center, 1_000_000, 100_000, 960_000_000),
        (4_600_000, 5_600_000)
    );
}

#[test]
fn direct_sweeps_accept_only_ordered_in_range_limits() {
    let valid = DirectSweepConfig {
        start_hz: 88_000_000,
        stop_hz: 108_000_000,
        generation: 7,
    };
    assert!(validate_direct_sweep(Some(valid), Model::Basic).is_ok());
    assert!(validate_direct_sweep(None, Model::Basic).is_ok());
    assert!(validate_direct_sweep(
        Some(DirectSweepConfig {
            start_hz: valid.stop_hz,
            stop_hz: valid.start_hz,
            ..valid
        }),
        Model::Basic
    )
    .is_err());
    assert!(validate_direct_sweep(
        Some(DirectSweepConfig {
            stop_hz: Model::Basic.maximum_hz() + 1,
            ..valid
        }),
        Model::Basic
    )
    .is_err());
    assert_eq!(
        validate_direct_sweep(
            Some(DirectSweepConfig { start_hz: 1, ..valid }),
            Model::Basic
        )
        .unwrap_err()
        .message(),
        "tinySA sweep must be within 100000..960000000 Hz with start below stop"
    );
}

#[test]
fn unknown_ultra_uses_the_conservative_zs405_range() {
    assert_eq!(Model::UltraUnknown.maximum_hz(), 6_000_000_000);
}

#[test]
fn startup_forces_every_model_into_input_mode() {
    assert_eq!(
        input_mode_command(Model::Basic, BasicInput::Low),
        "mode low input"
    );
    assert_eq!(
        input_mode_command(Model::Basic, BasicInput::High),
        "mode high input"
    );
    for model in [
        Model::Zs405,
        Model::Zs406,
        Model::Zs407,
        Model::UltraUnknown,
    ] {
        assert_eq!(input_mode_command(model, BasicInput::High), "mode input");
    }
}

#[test]
fn selector_keeps_the_path_and_basic_input_separate() {
    assert_eq!(
        parse_selector("/dev/ttyACM2").unwrap(),
        (Some("/dev/ttyACM2".to_string()), None)
    );
    assert_eq!(
        parse_selector("/dev/ttyACM2?input=high").unwrap(),
        (Some("/dev/ttyACM2".to_string()), Some(BasicInput::High))
    );
    assert_eq!(
        parse_selector("?input=high").unwrap(),
        (None, Some(BasicInput::High))
    );
    assert!(parse_selector("/dev/ttyACM2?input=other").is_err());
}

#[test]
fn selectors_that_name_anything_else_are_refused() {
    assert_eq!(
        parse_selector("/dev/ttyACM2?input=other"),
        Err(SelectorError::BadInput)
    );
    assert_eq!(parse_selector("/dev/ttyACM2?speed=9"), Err(SelectorError::BadPath));
    assert_eq!(parse_selector("?input=LoW").unwrap(), (None, Some(BasicInput::Low)));
    assert_eq!(
        SelectorError::BadInput.message(),
        "tinySA input must be 'low' or 'high'"
    );
}

#[test]
fn only_an_explicit_selector_overrides_the_basic_input() {
    let bare = list(Some("/dev/ttyACM2"), Vec::new());
    assert_eq!(bare.len(), 1);
    assert_eq!(bare[0].tiny_sa_input, None);

    let high = list(Some("/dev/ttyACM2?input=high"), Vec::new());
    assert_eq!(high.len(), 1);
    assert_eq!(high[0].tiny_sa_input, Some(BasicInput::High));
    assert_eq!(list(Some("/dev/ttyACM2?input=other"), Vec::new()).len(), 0);
}

#[test]
fn basic_capabilities_match_the_selected_input() {
    let low = capabilities(Model::Basic, BasicInput::Low);
    assert_eq!((low.freq_min_hz, low.freq_max_hz), (100_000, 350_000_000));
    let high = capabilities(Model::Basic, BasicInput::High);
    assert_eq!(
        (high.freq_min_hz, high.freq_max_hz),
        (240_000_000, 959_000_000)
    );
    assert_eq!(low.level_unit, LevelUnit::Dbm);
}

#[test]
fn narrow_rbw_expands_the_scan_deadline() {
    let settings = ScanSettings {
        points: DEFAULT_POINTS,
        rbw_hz: Some(200),
        spur: SpurMode::Auto,
    };
    let segment = Segment {
        start_hz: 400_000_000,
        stop_hz: 500_000_000,
        points: 450,
    };
    let timeout = scan_inactivity_timeout(segment, Model::Zs405, settings);
    assert!(timeout > 120_000, "{timeout:?}");
}

#[test]
fn text_frames_require_the_echo_and_prompt() {
    assert_eq!(
        parse_text_frame(b"version\r\ntinySA_v1.4\r\nch> ", "version").unwrap(),
        b"tinySA_v1.4\r\n"
    );
    assert!(parse_text_frame(b"tinySA_v1.4\r\nch> ", "version").is_err());
    assert!(parse_text_frame(b"version\r\ntinySA_v1.4\r\n", "version").is_err());
    assert!(parse_text_frame(b"frobnicate\r\nfrobnicate?\r\nch> ", "frobnicate").is_err());
}

#[test]
fn each_refused_text_frame_says_why() {
    let why = |frame: &[u8], command: &str| parse_text_frame(frame, command).unwrap_err();
    assert!(matches!(why(b"version\r\nx\r\n", "version"), TextError::NoPrompt));
    assert!(matches!(why(b"x\r\nch> ", "version"), TextError::NoEcho));
    match why(b"spur auto\r\nspur?\r\nch> ", "spur auto") {
        TextError::Unsupported(word) => assert_eq!(word, "spur"),
        _ => panic!("the command was known"),
    }
    // Bytes that are no text are read past: only the line that names the command counts.
    assert!(matches!(
        why(b"spur\r\n\xff\xfe\r\nspur?\r\nch> ", "spur"),
        TextError::Unsupported(_)
    ));
    assert_eq!(
        parse_text_frame(b"spur\r\n\xff\xfe\r\nch> ", "spur").unwrap(),
        b"\xff\xfe\r\n"
    );
    assert_eq!(
        TextError::NoPrompt.message(),
        "tinySA response did not end at the shell prompt"
    );
}

#[test]
fn basic_identity_does_not_need_a_hardware_line() {
    let identity = parse_identity(
        b"tinySA_v1.4-1-gabc\r\n",
        b"tinySA v0.3ZS304\r\nVersion: tinySA_v1.4-1-gabc\r\n",
        b"commands: version info help zero scanraw\r\n",
        b"zero {level}\r\n128dBm\r\n",
    )
    .unwrap();
    assert_eq!(identity.model, Model::Basic);
    assert_eq!(identity.hardware, None);
    assert_eq!(identity.zero_dbm, 128);
}

#[test]
fn ultra_models_are_read_from_the_info_response() {
    for (suffix, expected) in [
        ("ZS405", Model::Zs405),
        ("ZS406", Model::Zs406),
        ("ZS407", Model::Zs407),
        ("prototype", Model::UltraUnknown),
    ] {
        let info = format!("tinySA ULTRA {suffix}\r\n");
        let identity = parse_identity(
            b"tinySA4_v1.4\r\nHW Version:future\r\n",
            info.as_bytes(),
            b"commands: scanraw\r\n",
            b"174dBm\r\n",
        )
        .unwrap();
        assert_eq!(identity.model, expected);
        assert_eq!(identity.hardware.as_deref(), Some("HW Version:future"));
    }
}

#[test]
fn ultra_models_fall_back_to_the_hardware_revision() {
    for (hardware, expected) in [
        ("V0.4.5.1.1", Model::Zs405),
        ("V0.4.6", Model::Zs406),
        ("V0.5.4 max2871", Model::Zs407),
    ] {
        let version = format!("tinySA4_v1.4\r\nHW Version:{hardware}\r\n");
        let identity = parse_identity(
            version.as_bytes(),
            b"tinySA ULTRA\r\n",
            b"commands: scanraw\r\n",
            b"174dBm\r\n",
        )
        .unwrap();
        assert_eq!(identity.model, expected, "{hardware}");
    }
}

#[test]
fn replies_that_identify_nothing_are_refused_one_by_one() {
    let ok: [&[u8]; 4] = [b"tinySA_v1.4\r\n", b"tinySA\r\n", b"commands: scanraw\r\n", b"128dBm\r\n"];
    let with = |at: usize, bytes: &'static [u8]| {
        let mut r = ok;
        r[at] = bytes;
        parse_identity(r[0], r[1], r[2], r[3]).map(|i| i.zero_dbm)
    };
    assert_eq!(with(3, b"128dBm\r\n"), Ok(128));
    assert_eq!(with(0, b"\xff"), Err(IdentityError::VersionNotText));
    assert_eq!(with(1, b"\xff"), Err(IdentityError::InfoNotText));
    assert_eq!(with(2, b"\xff"), Err(IdentityError::HelpNotText));
    assert_eq!(with(3, b"\xff"), Err(IdentityError::ZeroNotText));
    assert_eq!(with(3, b"nothing\r\n"), Err(IdentityError::NoZero));
    let other = parse_identity(b"NanoVNA\r\n", b"VNA\r\n", b"help\r\n", b"1dBm\r\n");
    assert_eq!(other.map(|i| i.zero_dbm), Err(IdentityError::NotTinySa));
}

#[test]
fn zero_parser_accepts_signed_values() {
    assert_eq!(parse_zero(b"zero {level}\r\n174dBm\r\n").unwrap(), 174);
    assert_eq!(parse_zero(b"-174dBm\r\n").unwrap(), -174);
    assert!(parse_zero(b"zero unavailable\r\n").is_err());
}

#[test]
fn a_zero_that_is_no_text_is_told_from_a_missing_one() {
    assert_eq!(parse_zero(b"\xff\xfe128dBm\r\n"), Err(ZeroError::NotText));
    assert_eq!(parse_zero(b"zero unavailable\r\n"), Err(ZeroError::NoLevel));
}

#[test]
fn scan_payload_bytes_are_never_treated_as_tags() {
    let frame = [b'{', b'x', b'{', 0, b'x', 0, b'}', b'x', b'x', 0, b'}'];
    let levels = parse_scan_frame(&frame, 3, 0).unwrap();
    let db = |x: f64| (x * 1e6) as i64;
    assert_eq!(
        levels,
        vec![db(123.0 / 32.0), db(32000.0 / 32.0), db(120.0 / 32.0)]
    );
}

#[test]
fn negative_raw_levels_keep_their_sign() {
    let levels = parse_scan_frame(&[b'{', b'x', 0x40, 0xff, b'}'], 1, 174).unwrap();
    let db = |x: f64| (x * 1e6) as i64;
    assert_eq!(levels, vec![db(-180.0)]);
}

#[test]
fn scan_parser_rejects_bad_tags_and_truncation() {
    assert!(parse_scan_frame(b"{q\0\0}", 1, 0)
        .unwrap_err()
        .message()
        .contains("malformed tag"));
    assert!(parse_scan_frame(b"{}", 1, 0)
        .unwrap_err()
        .message()
        .contains("closed after"));
    assert!(parse_scan_frame(b"{x\0\0", 1, 0)
        .unwrap_err()
        .message()
        .contains("closing tag"));
    assert!(parse_scan_frame(b"{x\0", 1, 0).is_err());
}

#[test]
fn each_broken_scan_frame_has_its_own_fault() {
    let fault = |frame: &[u8], points: u32| parse_scan_frame(frame, points, 0).unwrap_err();
    assert_eq!(fault(b"", 1), FrameError::NoOpeningTag);
    assert_eq!(fault(b"x", 1), FrameError::NoOpeningTag);
    assert_eq!(fault(b"{", 1), FrameError::Ended { index: 0, points: 1 });
    assert_eq!(fault(b"{x\0\0}", 2), FrameError::Closed { index: 1, points: 2 });
    assert_eq!(fault(b"{x\0\0q", 2), FrameError::BadTag { index: 1, tag: b'q' });
    assert_eq!(fault(b"{x\0", 1), FrameError::CutShort { index: 0 });
    assert_eq!(fault(b"{x\0\0", 1), FrameError::NoClosingTag);
    assert_eq!(fault(b"{x\0\0}x", 1), FrameError::TrailingData);
    assert_eq!(parse_scan_frame(b"{}", 0, 0), Ok(Vec::new()));
}

#[test]
fn frequency_mapping_matches_scanraw_integer_then_float_math() {
    assert_eq!(
        scan_frequencies(100_000_003, 100_001_006, 4),
        vec![100_000_003, 100_000_253, 100_000_503, 100_000_753]
    );
    let large = scan_frequencies(6_000_000_001, 6_000_100_101, 3);
    let step = ((100_100u64 / 3) as f32) as u64;
    assert_eq!(
        large,
        vec![
            6_000_000_001,
            6_000_000_001 + step,
            6_000_000_001 + 2 * step
        ]
    );
}

#[test]
fn frequencies_are_rounded_as_single_precision_rounds() {
    for (start, stop, points) in [
        (100_000u64, 960_000_000u64, 450u32),
        (100_000, 7_300_000_000, 450),
        (1, 6_000_000_000, 290),
        (240_000_000, 959_000_000, 101),
    ] {
        let step = (stop - start) / points as u64;
        let expected: Vec<u64> = (0..points)
            .map(|i| start + ((step as f32) * (i as f32)) as u64)
            .collect();
        assert_eq!(scan_frequencies(start, stop, points), expected);
    }
    assert_eq!(scan_frequencies(5, 4, 3), Vec::<u64>::new());
    assert_eq!(scan_frequencies(4, 5, 0), Vec::<u64>::new());
}

#[test]
fn a_scan_is_read_from_its_echo_to_the_prompt() {
    let segment = Segment { start_hz: 100_000_000, stop_hz: 100_000_200, points: 2 };
    let command = scan_command_bytes(segment);
    assert_eq!(command, b"scanraw 100000000 100000200 2 1");
    let mut reader = ScanReader::new(segment, 174);
    assert!(!reader.may_interrupt());
    assert_eq!(reader.outstanding(), ScanDrain::Records(2));
    let mut stream = command;
    stream.extend_from_slice(b"\r\n{x\x40\xffx\0\x01}ch> ");
    let last = stream.len() - 1;
    for (i, b) in stream.iter().enumerate() {
        let step = reader.feed(PortEvent::Byte(*b), 1_000);
        if i == last {
            assert_eq!(step, ReadStep::Done);
        } else {
            assert_eq!(step, ReadStep::ReadMore, "byte {i}");
        }
    }
    let trace = reader.finish();
    assert_eq!(trace.levels, vec![-180_000_000, -166_000_000]);
    assert_eq!(trace.frequencies_hz, vec![100_000_000, 100_000_100]);
    assert_eq!((trace.center_hz, trace.span_hz), (100_000_100, 200));
}

#[test]
fn a_scan_that_goes_wrong_says_where() {
    let segment = Segment { start_hz: 100_000_000, stop_hz: 100_000_200, points: 2 };
    let mut reader = ScanReader::new(segment, 0);
    assert_eq!(
        reader.feed(PortEvent::Byte(b'q'), 10),
        ReadStep::Failed(ScanError::BadPrelude { at: 0, byte: b'q', expected: b's' })
    );
    let mut reader = ScanReader::new(segment, 0);
    assert_eq!(
        reader.feed(PortEvent::Silent(10), 10),
        ReadStep::Failed(ScanError::TimedOut)
    );
    assert_eq!(
        ScanReader::new(segment, 0).feed(PortEvent::Silent(9), 10),
        ReadStep::ReadMore
    );
    assert_eq!(
        ScanReader::new(segment, 0).feed(PortEvent::Disconnected, 10),
        ReadStep::Failed(ScanError::Disconnected)
    );
    let text = scan_error_text(&ScanError::TimedOut.message());
    assert!(text.starts_with("tinySA scan error: "), "{text}");
}

#[test]
fn a_text_reply_ends_at_the_prompt() {
    let mut reader = ReplyReader::new();
    let reply = b"version\r\nx\r\nch> ";
    for b in &reply[..reply.len() - 1] {
        assert_eq!(reader.feed(PortEvent::Byte(*b), 10), ReplyStep::ReadMore);
    }
    assert_eq!(reader.feed(PortEvent::Byte(b' '), 10), ReplyStep::Done);
    assert_eq!(reader.response, reply);
    let mut reader = ReplyReader::new();
    assert_eq!(
        reader.feed(PortEvent::Silent(10), 10),
        ReplyStep::Failed(ReplyError::TimedOut)
    );
    assert_eq!(
        reader.feed(PortEvent::Disconnected, 10),
        ReplyStep::Failed(ReplyError::Disconnected)
    );
}

#[test]
fn the_line_is_drained_until_it_is_quiet() {
    assert_eq!(drain_startup(LineEvent::Data(3), 10), LineStep::ReadMore);
    assert_eq!(drain_startup(LineEvent::Data(0), 10), LineStep::Quiet);
    assert_eq!(drain_startup(LineEvent::Silent(199), 210), LineStep::ReadMore);
    assert_eq!(drain_startup(LineEvent::Silent(200), 210), LineStep::Quiet);
    assert_eq!(drain_startup(LineEvent::Data(3), 5_000), LineStep::NeverQuiet);
    assert_eq!(drain_startup(LineEvent::Failed, 0), LineStep::ReadFailed);
    assert_eq!(drain_startup(LineEvent::Interrupted, 0), LineStep::ReadMore);
}

/// Answers every command of a start and tells what was sent.
fn start(input: BasicInput, version: &[u8], info: &[u8]) -> (Startup, Vec<String>, StartupStep) {
    let mut startup = Startup::new(input);
    let mut sent = vec![startup.next_command().to_string()];
    let mut step = startup.on_version_reply(version.to_vec());
    while step == StartupStep::Send || step == StartupStep::DrainAndSend {
        let command = startup.next_command().to_string();
        let body: Vec<u8> = if command == "version" {
            version.to_vec()
        } else if command == "info" {
            info.to_vec()
        } else if command == "help" {
            b"commands: scanraw\r\n".to_vec()
        } else if command == "zero" {
            b"128dBm\r\n".to_vec()
        } else {
            Vec::new()
        };
        step = if command == "version" {
            startup.on_version_reply(body)
        } else {
            startup.on_reply(body)
        };
        sent.push(command);
    }
    (startup, sent, step)
}

#[test]
fn a_start_asks_who_is_there_and_leaves_it_measuring() {
    let (startup, sent, step) = start(BasicInput::High, b"tinySA_v1.4\r\n", b"tinySA\r\n");
    assert_eq!(step, StartupStep::Ready);
    assert_eq!(startup.identity.unwrap().model, Model::Basic);
    assert_eq!(sent[0], "version");
    assert_eq!(sent[1], "output off");
    assert_eq!(&sent[2..5], ["info", "help", "zero"]);
    assert!(sent.contains(&"abort on".to_string()));
    assert!(sent.contains(&"mode high input".to_string()));
    for command in ["rbw auto", "attenuate auto", "spur on"] {
        assert!(sent.contains(&command.to_string()), "{command} was not sent");
    }
}

#[test]
fn a_start_stops_at_a_stranger() {
    let (_, sent, step) = start(BasicInput::Low, b"NanoVNA\r\n", b"");
    assert_eq!(sent, ["version", "version", "version"]);
    assert_eq!(step, StartupStep::DrainAndFail(StartupError::NotTinySa));
    let (_, _, step) = start(BasicInput::High, b"tinySA4_v1.4\r\n", b"tinySA ULTRA ZS405\r\n");
    assert_eq!(step, StartupStep::Failed(StartupError::HighOnUltra));
}

#[test]
fn a_worker_scans_while_it_streams() {
    let mut w = Worker::open(Model::Basic, BasicInput::Low, 128);
    let turn = w.on_command(Command::IsStreaming);
    assert_eq!(turn.reply, Some(Reply::Streaming(false)));
    assert_eq!(turn.next, NextMove::AwaitCommand);
    let turn = w.on_command(Command::Start);
    assert_eq!(turn.reply, Some(Reply::Done));
    match turn.next {
        NextMove::PollCommand => {}
        NextMove::Scan { segment, .. } => {
            assert_eq!(segment.start_hz, 95_000_000);
            assert_eq!(segment.stop_hz, 105_000_000);
            assert_eq!(segment.points, 450);
        }
        _ => panic!("nothing to do while streaming"),
    }
    let again = w.on_command(Command::Start);
    assert_eq!(again.reply, Some(Reply::Refused(CommandError::AlreadyRunning)));
    match w.on_command(Command::SetSpan(None)).reply {
        Some(Reply::Refused(CommandError::BadSpan(_))) => {}
        _ => panic!("a span that is no number was taken"),
    }
    match w.on_command(Command::SetSpan(Some(1_000_000_000))).reply {
        Some(Reply::Span { span_hz, .. }) => assert_eq!(span_hz, 1_000_000),
        _ => panic!("the span was refused"),
    }
    w.on_command(Command::SetFrequency(1));
    assert_eq!(w.center_hz, 600_000, "the window is moved inside the connector's range");
    assert!(!interrupts_scan(Command::IsStreaming));
    assert!(interrupts_scan(Command::Stop));
    assert_eq!(w.on_command(Command::Shutdown).next, NextMove::Exit);
}

#[test]
fn a_complete_scan_is_published_and_a_failed_one_stops() {
    let mut w = Worker::open(Model::Basic, BasicInput::Low, 128);
    let segment = match w.on_command(Command::Start).next {
        NextMove::Scan { segment, .. } => segment,
        _ => panic!("nothing to scan"),
    };
    let mut reader = ScanReader::new(segment, 128);
    let mut stream = scan_command_bytes(segment);
    stream.extend_from_slice(b"\r\n{");
    for _ in 0..450 {
        stream.extend_from_slice(b"x\0\0");
    }
    stream.extend_from_slice(b"}ch> ");
    for b in stream {
        reader.feed(PortEvent::Byte(b), 1_000);
    }
    match w.on_complete(reader.finish()) {
        Ok(p) => {
            assert_eq!(p.target, PowerTraceTarget::Spectrum);
            assert_eq!(p.levels, vec![-128_000_000; 450]);
            assert_eq!(p.frequencies_hz.len(), 450);
            assert_eq!(p.frequencies_hz[0], 95_000_000);
            assert_eq!(p.tuned, Some((100_000_000, 10_000_000)));
        }
        Err(_) => panic!("the trace was refused"),
    }
    let turn = w.on_failed(ScanFailure::Reply);
    assert_eq!(turn.stopped, Some(ScanFailure::Reply));
    assert!(turn.abort);
    assert_eq!(turn.next, NextMove::Exit);
}

#[test]
fn an_interrupted_scan_that_does_not_end_refuses_the_command() {
    let mut w = Worker::open(Model::Basic, BasicInput::Low, 128);
    w.on_command(Command::Start);
    let turn = w.on_interrupted(Command::SetFrequency(200_000_000), false);
    assert_eq!(turn.reply, Some(Reply::Refused(CommandError::AbortFailed)));
    let mut w = Worker::open(Model::Basic, BasicInput::Low, 128);
    w.on_command(Command::Start);
    w.on_interrupted(Command::SetFrequency(200_000_000), true);
    assert_eq!(w.center_hz, 200_000_000);
}

#[test]
fn refusals_and_failures_say_why() {
    assert_eq!(CommandError::AlreadyRunning.message("x"), "tinySA acquisition is already running");
    assert_eq!(
        CommandError::BadSpan(SpanError::NotPositive).message("x"),
        "tinySA span must be a positive finite value"
    );
    let refused = validate_direct_sweep(
        Some(DirectSweepConfig { start_hz: 2, stop_hz: 1, generation: 0 }),
        Model::Basic,
    );
    assert_eq!(
        CommandError::BadSweep(refused.unwrap_err()).message("x"),
        "tinySA sweep must be within 100000..960000000 Hz with start below stop"
    );
    assert_eq!(CommandError::AbortFailed.message("the line is dead"), "the line is dead");
    assert_eq!(
        ScanFailure::TooNarrow { points: 450 }.message("x"),
        "tinySA scan span is too narrow for 450 points"
    );
    assert_eq!(
        ScanFailure::BadGrid(GridError::NoFrequencies).message("x"),
        "tinySA scan returned no frequencies"
    );
    assert_eq!(ScanFailure::Reply.message("tinySA scan timed out"), "tinySA scan timed out");
    assert_eq!(ScanFailure::Abort.message("the line is dead"), "the line is dead");
    assert_eq!(
        StartupError::NotTinySa.message("x"),
        "serial device did not identify as a tinySA"
    );
    assert_eq!(StartupError::CommandFailed.message("the line is dead"), "the line is dead");
    assert_eq!(
        StartupError::BadIdentity(IdentityError::NotTinySa).message("x"),
        IdentityError::NotTinySa.message()
    );
    assert_eq!(
        StartupError::HighOnUltra.message("x"),
        "tinySA HIGH input selection applies only to the basic model"
    );
}

fn usb(vendor: &str, id: &str, manufacturer: &str, product: &str) -> UsbAttributes {
    let some = |t: &str| if t.is_empty() { None } else { Some(t.to_string()) };
    UsbAttributes {
        vendor: some(vendor),
        product_id: some(id),
        manufacturer: some(manufacturer),
        product: some(product),
    }
}

#[test]
fn analysers_are_found_by_their_nearest_matching_device() {
    let tiny = || usb("0483\n", "5740\n", "tinysa.org\n", "tinySA4\n");
    let name = matching_product(&tiny()).expect("a tinySA");
    assert_eq!(name, "tinySA4");
    assert_eq!(matching_product(&usb("0483", "5740", "STM", "VNA")), None);
    assert_eq!(matching_product(&usb("1d50", "6089", "tinysa.org", "tinySA")), None);
    let entries = vec![
        SerialEntry { name: "ttyACM1".to_string(), ancestors: vec![usb("", "", "", ""), tiny()] },
        SerialEntry { name: "ttyUSB0".to_string(), ancestors: vec![usb("0403", "6001", "", "")] },
        SerialEntry { name: "ttyACM0".to_string(), ancestors: vec![tiny()] },
    ];
    let found = list_entries(&entries, "/dev");
    assert_eq!(found.len(), 2);
    assert_eq!(found[0].path.as_deref(), Some("/dev/ttyACM0"));
    assert_eq!(found[1].path.as_deref(), Some("/dev/ttyACM1"));
    assert_eq!(found[0].index, 0);
    assert_eq!(found[1].index, 1);
    let kept = list(None, found);
    assert_eq!(kept.len(), 2);
    assert_eq!(kept[0].tiny_sa_input, None);
}

#[test]
fn the_native_radios_state_their_limits() {
    let hackrf = hackrf::caps();
    assert_eq!((hackrf.freq_min_hz, hackrf.freq_max_hz), (1_000_000, 6_000_000_000));
    assert_eq!(hackrf.level_unit.label(), "dBFS");
    assert_eq!(hackrf::board_rev_name(6), "HackRF One r6");
    assert_eq!(hackrf::compute_bb_filter_bw(0), 1_750_000);
    let rtl = rtlsdr::observer_caps();
    assert_eq!(rtl.level_unit, LevelUnit::Dbfs);
    assert!(rtl.sample_rate_max_hz < hackrf.sample_rate_max_hz);
}
