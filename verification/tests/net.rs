//! The 2.4 GHz section.

use sdrtop::hardware::native::hackrf;
use sdrtop::hardware::DeviceCapabilities;
use sdrtop::signal::dsp::testkit::Rng;
use sdrtop::signal::net::band::{self, wifi_centre_hz, wifi_channel, LAST_SPACED};
use sdrtop::signal::net::census::{order, sort_keys, Device};
use sdrtop::signal::net::gate::{
    admits, minimum_rate_hz, phys, reaches_band, verdict, HIGHEST_CENTRE_HZ, LOWEST_CENTRE_HZ,
};
use sdrtop::signal::net::occupancy::{
    self, above, bin_cells, cell_centre_hz, cell_of, cells_observed, duty_cycle, duty_uncertain,
    floor_shape, quantile, Duty, Uncertain, CELLS,
};
use sdrtop::signal::net::scan::{bins_for, Scan};
use sdrtop::signal::net::survey::{Plan, DWELL_MS, SETTLE_MS};
use sdrtop::signal::net::worker::{Arrival, Run};
use sdrtop::state::net::{NetDecodeHealth, NetMode, NetState};
use sdrtop::state::RadioState;
use sdrtop::tasks::net::{SurveyMove, SurveyNote, SurveyTask};

const FLOOR_QUANTILE: f64 = 1.0 / occupancy::FLOOR_QUANTILE_PARTS as f64;
const FALSE_ALARM: f64 = 1.0 / occupancy::FALSE_ALARM_PARTS as f64;
const BUSY_LIMIT: f64 = occupancy::BUSY_LIMIT_PERCENT as f64 / 100.0;
const TAIL_SHAPE: f64 = occupancy::TAIL_SHAPE_E15 as f64 / 1e15;
const TAIL_LIMIT: f64 = occupancy::TAIL_LIMIT_E15 as f64 / 1e15;
const NOISE_SPREAD: f64 = occupancy::NOISE_SPREAD_E14 as f64 / 1e14;
const SPREAD_FLOOR: f64 = occupancy::SPREAD_FLOOR as f64;
const DUTY_RESOLUTION: f64 = 1.0 / occupancy::DUTY_RESOLUTION_PARTS as f64;

/// Powers are handed over in units of this.
const UNIT: f64 = 1e-12;

/// Exponentially distributed power samples, drawn from the inverse distribution.
fn noise(rng: &mut Rng, n: usize, mean: f64) -> Vec<f64> {
    (0..n)
        .map(|_| {
            let unit = rng.unit_parts() as f64 / 9_007_199_254_740_993.0;
            -mean * unit.ln()
        })
        .collect()
}

fn counted(plane: &[f64]) -> Vec<i128> {
    plane.iter().map(|p| (p / UNIT) as i128).collect()
}

struct Floor {
    power: f64,
    threshold: f64,
    spread: f64,
    tail: f64,
    busy: f64,
    trusted: bool,
}

/// The floor of a plane, with the one logarithm taken here.
fn floor_of(plane: &[i128]) -> Option<occupancy::Floor> {
    let shape = floor_shape(plane)?;
    let log = match shape.log_argument() {
        Some((num, den)) => -(num as f64 / den as f64).ln() * 1e12,
        None => occupancy::QUANTILE_LOG_E12 as f64,
    };
    Some(occupancy::derive_floor(&shape, log as u64))
}

fn derive_floor(plane: &[f64]) -> Option<Floor> {
    let f = floor_of(&counted(plane))?;
    Some(Floor {
        power: f.power as f64 * UNIT,
        threshold: f.threshold as f64 * UNIT,
        spread: f.spread as f64 / 1e6,
        tail: f.tail as f64 / 1e6,
        busy: f.busy as f64 / f.of as f64,
        trusted: f.trusted,
    })
}

fn duty(busy: u64, windows: u64) -> f64 {
    let d = duty_cycle(busy, windows);
    d.num as f64 / d.den as f64
}

/// A plane of `cells` by `windows` powers, with bursts in the first cell.
fn plane(rng: &mut Rng, cells: usize, windows: usize, duty: f64) -> Vec<Vec<f64>> {
    let burst = (windows as f64 * duty).round() as usize;
    (0..cells)
        .map(|c| {
            let mut col = noise(rng, windows, 1.0);
            if c == 0 {
                for p in col.iter_mut().take(burst) {
                    *p += 100.0;
                }
            }
            col
        })
        .collect()
}

fn duty_of(powers: &[f64], floor: &Floor) -> f64 {
    let busy = above(&counted(powers), (floor.threshold / UNIT) as i128);
    duty(busy as u64, powers.len() as u64)
}

#[test]
fn the_constants_are_the_closed_forms() {
    let q = FLOOR_QUANTILE;
    assert!((NOISE_SPREAD - q.ln() / (1.0 - q).ln()).abs() < 1e-12);
    assert!((TAIL_SHAPE - (1.0 - q).ln() / (1.0 - q / 2.0).ln()).abs() < 1e-12);
    let noise = 1.0 - BUSY_LIMIT;
    assert!((TAIL_LIMIT - (1.0 - q / noise).ln() / (1.0 - q / 2.0 / noise).ln()).abs() < 1e-12);
    assert!((TAIL_LIMIT - 0.5f64.ln() / 0.75f64.ln()).abs() < 1e-12);
    assert!((occupancy::QUANTILE_LOG_E12 as f64 / 1e12 + (1.0 - q).ln()).abs() < 1e-12);
    assert!((occupancy::ALARM_LOG_E12 as f64 / 1e12 + FALSE_ALARM.ln()).abs() < 1e-12);
    assert!((-10.0 * FALSE_ALARM.log10() * std::f64::consts::LN_10 / 10.0 - 6.908).abs() < 0.01);
}

#[test]
fn the_band_divides_into_whole_megahertz_cells() {
    let low = band::LOW_HZ as i64;
    assert_eq!(CELLS, 83);
    assert_eq!(cell_centre_hz(0), band::LOW_HZ + 500_000);
    assert_eq!(cell_of(Some(low)), Some(0));
    assert_eq!(cell_of(Some(low + 999_999)), Some(0));
    assert_eq!(cell_of(Some(low + 1_000_000)), Some(1));
    assert_eq!(cell_of(Some(2_437_000_000)), Some(37));
    assert_eq!(cell_of(Some(low - 1)), None);
    assert_eq!(cell_of(Some(2_483_200_000)), None, "the ragged half megahertz");
    assert_eq!(cell_of(Some(2_484_000_000)), None, "channel 14 has no cell");
    assert_eq!(cell_of(None), None);
}

#[test]
fn only_the_cells_wholly_inside_the_span_are_observed() {
    let seen = cells_observed(Some(2_437_000_000), Some(20_000_000));
    assert_eq!(seen, (27, 47), "twenty whole cells");
    assert_eq!(cell_centre_hz(seen.0), 2_427_500_000);

    let seen = cells_observed(Some(2_437_500_000), Some(20_000_000));
    assert_eq!(seen, (28, 47), "nineteen, and neither ragged end");

    let wide = cells_observed(Some(2_440_000_000), Some(200_000_000));
    assert_eq!(wide, (0, CELLS));
    assert_eq!(cells_observed(None, Some(1)), (0, 0));
    assert_eq!(cells_observed(Some(2_440_000_000), Some(0)), (0, 0));
}

#[test]
fn the_noise_floor_is_recovered_from_the_lower_decile() {
    let mut rng = Rng::new(0x0CC0_1234);
    let flat = noise(&mut rng, 40_000, 4.0);
    let f = derive_floor(&flat).unwrap();
    let three_sigma = 4.0 * 3.0 * 3.164 / (40_000f64).sqrt();
    assert!(
        (f.power - 4.0).abs() < three_sigma,
        "estimated {} from a mean of 4, bound {three_sigma}",
        f.power
    );
    assert!((f.threshold / f.power + FALSE_ALARM.ln()).abs() < 1e-12);
    assert!(
        (f.threshold / f.power - 6.908).abs() < 0.01,
        "8.4 dB above the floor: {}",
        f.threshold / f.power
    );
    assert!(f.trusted);
    assert!(
        (f.tail - TAIL_SHAPE).abs() < 0.1,
        "noise-only tail is 2.054: {}",
        f.tail
    );
    assert!(
        (f.spread - NOISE_SPREAD).abs() < 1.0,
        "noise spreads by 21.9: {}",
        f.spread
    );
}

#[test]
fn a_busy_plane_does_not_report_a_floor_that_is_not_there() {
    for busy in [0.0, 0.25, 0.5, 0.75] {
        let mut rng = Rng::new(0xB005 + (busy * 100.0) as u64);
        let mut flat = noise(&mut rng, 60_000, 1.0);
        let n = (60_000.0 * busy) as usize;
        for p in flat.iter_mut().take(n) {
            *p += 100.0;
        }
        let f = derive_floor(&flat).unwrap();
        let error_db = 10.0 * f.power.log10();
        assert!(
            error_db.abs() < 0.4,
            "{busy} busy: floor off by {error_db:.2} dB (power {})",
            f.power
        );
        assert!(f.trusted, "{busy} busy is inside the limit, tail {}", f.tail);
    }
}

#[test]
fn a_plane_that_is_not_noise_plus_signal_says_so() {
    let flat = vec![1.0f64; 10_000];
    let f = derive_floor(&flat).unwrap();
    assert!(!f.trusted, "spread {}", f.spread);
    assert!(f.spread < SPREAD_FLOOR);

    let mut rng = Rng::new(99);
    let mut flat = noise(&mut rng, 40_000, 1.0);
    for p in flat.iter_mut().take(36_000) {
        *p += 100.0;
    }
    let f = derive_floor(&flat).unwrap();
    assert!(!f.trusted, "tail {}", f.tail);
    assert!(f.tail > TAIL_LIMIT);
    assert!(f.spread < SPREAD_FLOOR);
}

#[test]
fn the_busy_check_cannot_be_the_obvious_one() {
    let mut rng = Rng::new(0x88);
    let mut flat = noise(&mut rng, 40_000, 1.0);
    for p in flat.iter_mut().take(35_200) {
        *p += 100.0;
    }
    let f = derive_floor(&flat).unwrap();
    assert!(f.spread >= SPREAD_FLOOR, "the plane still spreads: {}", f.spread);
    assert!(
        f.busy <= BUSY_LIMIT,
        "and the direct check sees {} busy on a band 88 % occupied",
        f.busy
    );
    assert!(f.tail > TAIL_LIMIT, "tail {}", f.tail);
    assert!(!f.trusted);
}

#[test]
fn every_transform_bin_finds_its_cell() {
    let cells = bin_cells(2_437_000_000, 20_000_000, 18_000_000, 16);
    assert_eq!(cells.len(), 16);
    assert_eq!(cells[0], Some(37));
    assert_eq!(cells[1], Some(38));
    assert_eq!(cells[15], Some(35));
    assert_eq!(cells[7], Some(45));
    assert_eq!(cells[8], None);

    let narrow = bin_cells(2_437_000_000, 20_000_000, 14_000_000, 16);
    assert_eq!(narrow[7], None, "2445.75 is outside a 14 MHz span");
    assert_eq!(narrow[1], Some(38), "and the middle is untouched");

    let none = bin_cells(100_000_000, 20_000_000, 18_000_000, 16);
    assert!(none.iter().all(Option::is_none));

    for span in [0, -1, i64::MIN] {
        assert_eq!(bin_cells(2_437_000_000, 20_000_000, span, 16), vec![None; 16]);
    }
    let below = bin_cells(-2_437_000_000, 20_000_000, 18_000_000, 16);
    assert_eq!(below, vec![None; 16]);
    let turned = bin_cells(2_437_000_000, -20_000_000, 18_000_000, 16);
    assert_eq!((turned[1], turned[15]), (Some(35), Some(38)));
    let still = bin_cells(2_437_000_000, 0, 18_000_000, 16);
    assert_eq!(still, vec![Some(37); 16]);
    for extreme in [i64::MIN, i64::MAX] {
        assert_eq!(bin_cells(extreme, extreme, i64::MAX, 16).len(), 16);
    }
}

#[test]
fn a_known_duty_cycle_is_measured_back() {
    for want in [0.0, 0.05, 0.25, 0.5, 1.0] {
        let mut rng = Rng::new(0xD00D + (want * 1000.0) as u64);
        let p = plane(&mut rng, 20, 4_000, want);
        let flat: Vec<f64> = p.iter().flatten().copied().collect();
        let f = derive_floor(&flat).unwrap();
        assert!(f.trusted, "one busy cell in twenty is not a busy plane");
        let got = duty_of(&p[0], &f);
        assert!(
            (got - want).abs() < 0.005,
            "wanted {want}, measured {got} (threshold {})",
            f.threshold
        );
        let quiet = duty_of(&p[1], &f);
        assert!(quiet < DUTY_RESOLUTION, "a quiet cell read {quiet}");
    }
}

fn sigma(reading: Uncertain) -> f64 {
    match reading.variance {
        None => f64::INFINITY,
        Some(v) => {
            let of = v.of as f64;
            (v.busy as f64 / of * (v.idle as f64 / of) / v.windows as f64).sqrt()
        }
    }
}

#[test]
fn a_shorter_look_widens_the_reading_rather_than_shrinking_it() {
    let half = Duty { num: 1, den: 2 };
    let long = duty_uncertain(half, 40_000);
    let short = duty_uncertain(half, 400);
    assert_eq!(long.value, short.value, "the value is the value");
    assert!(sigma(short) > sigma(long) * 9.0, "ten times fewer windows");
    assert!((sigma(long) - (0.25f64 / 40_000.0).sqrt()).abs() < 1e-12);

    assert_eq!(sigma(duty_uncertain(Duty { num: 1, den: 1 }, 400)), 0.0);
    assert_eq!(sigma(duty_uncertain(Duty { num: 0, den: 1 }, 400)), 0.0);
    assert!(!sigma(duty_uncertain(Duty { num: 0, den: 1 }, 0)).is_finite());
}

#[test]
fn an_empty_band_reads_zero_and_a_full_one_reads_one() {
    assert_eq!(duty(0, 10_000), 0.0);
    assert_eq!(duty(10_000, 10_000), 1.0);
    let expected_false = (10_000.0 * FALSE_ALARM).round() as u64;
    assert_eq!(duty(expected_false, 10_000), 0.0);
    assert!(duty(expected_false + 1, 10_000) > 0.0);
    assert_eq!(duty(0, 0), 0.0);
    assert_eq!(duty(5, 0), 0.0);
    assert_eq!(duty(20_000, 10_000), 1.0);
}

#[test]
fn an_idle_plane_is_corrected_by_nothing_and_a_full_one_falls_back() {
    let idle = floor_shape(&[10i128; 100]).unwrap();
    assert_eq!(idle.log_argument(), Some((900, 1_000)));
    assert_eq!(idle.above, 0);
    let mut busy = vec![1_000_000i128; 100];
    busy[..11].fill(10);
    let shape = floor_shape(&busy).unwrap();
    assert_eq!(shape.low, 10);
    assert_eq!((shape.above, shape.len), (89, 100));
    assert_eq!(shape.log_argument(), Some((10, 110)));
    busy[10] = 1_000_000;
    let mut full = floor_shape(&busy).unwrap();
    full.above = 90;
    assert_eq!(full.log_argument(), None);
    assert_eq!(
        occupancy::derive_floor(&full, 1_000_000_000_000).power,
        full.low * 1_000_000_000_000 / occupancy::QUANTILE_LOG_E12 as i128
    );
}

#[test]
fn a_quantile_is_one_of_the_values() {
    assert_eq!(quantile(&[], 1, 2), None);
    assert_eq!(quantile(&[30, 10, 20], 0, 1), Some(10));
    assert_eq!(quantile(&[30, 10, 20], 1, 2), Some(20));
    assert_eq!(quantile(&[30, 10, 20], 1, 1), Some(30));
    assert!(floor_shape(&[]).is_none());
    assert!(floor_shape(&[0, 0, 0]).is_none());
}

/// The device's own limits but for the three that decide.
fn caps_with(freq_min_hz: u64, freq_max_hz: u64, sample_rate_max_hz: u64) -> DeviceCapabilities {
    let mut c = hackrf::caps();
    c.freq_min_hz = freq_min_hz;
    c.freq_max_hz = freq_max_hz;
    c.sample_rate_max_hz = sample_rate_max_hz;
    c
}

#[test]
fn the_hackrf_is_admitted_on_its_own_declaration() {
    let caps = hackrf::caps();
    assert!(verdict(&caps).is_ok());
    assert!(reaches_band(&caps));
}

#[test]
fn neither_rtl_sdr_tuner_reaches_the_band() {
    let r820t = caps_with(24_000_000, 1_766_000_000, 3_200_000);
    let e4000 = caps_with(52_000_000, 2_200_000_000, 3_200_000);
    assert!(verdict(&r820t).is_err());
    assert!(verdict(&e4000).is_err());
}

#[test]
fn the_band_edges_are_exact() {
    let rate = 20_000_000;
    assert!(verdict(&caps_with(LOWEST_CENTRE_HZ, HIGHEST_CENTRE_HZ, rate)).is_ok());
    assert!(verdict(&caps_with(LOWEST_CENTRE_HZ + 1, HIGHEST_CENTRE_HZ, rate)).is_err());
    assert!(verdict(&caps_with(LOWEST_CENTRE_HZ, HIGHEST_CENTRE_HZ - 1, rate)).is_err());
}

#[test]
fn a_radio_below_the_cheapest_mode_is_refused_by_rate_and_says_so() {
    let why = caps_with(1_000_000, 6_000_000_000, 1_500_000);
    let why = verdict(&why).unwrap_err();
    assert!(why.contains("1.500 Msps"), "{why}");
    assert!(why.contains("2.000"), "{why}");
    assert!(verdict(&caps_with(1_000_000, 6_000_000_000, minimum_rate_hz())).is_ok());
}

#[test]
fn the_refusal_names_the_range_it_refused_for() {
    let why = verdict(&caps_with(24_000_000, 1_766_000_000, 3_200_000)).unwrap_err();
    assert!(why.contains("24.000"), "{why}");
    assert!(why.contains("1766.000"), "{why}");
    assert!(why.contains("2402.000") && why.contains("2483.500"), "{why}");
}

#[test]
fn the_sample_rate_decides_which_modes_are_on_offer() {
    let hackrf = hackrf::caps();
    let all = phys();
    let admitted: Vec<&str> =
        all.iter().filter(|p| admits(&hackrf, p)).map(|p| p.name).collect();
    assert!(admitted.contains(&"BLE 2M"));
    assert!(admitted.contains(&"802.11a/g/n HT20"));
    assert!(!admitted.contains(&"802.11b DSSS"));
    assert!(!admitted.contains(&"802.11n HT40"));

    let pluto = caps_with(70_000_000, 6_000_000_000, 61_440_000);
    assert_eq!(all.iter().filter(|p| admits(&pluto, p)).count(), all.len() - 1);
}

#[test]
fn the_cheapest_mode_is_read_off_the_table_and_not_written_twice() {
    assert_eq!(minimum_rate_hz(), phys().iter().map(|p| p.rate_hz).min().unwrap());
    assert_eq!(minimum_rate_hz(), 2_000_000);
}

#[test]
fn channel_fourteen_is_centred_above_the_band_and_the_rest_are_not() {
    for n in 1..=LAST_SPACED {
        let hz = wifi_centre_hz(n).unwrap();
        assert!(
            (band::LOW_HZ..=band::HIGH_HZ).contains(&hz),
            "channel {n} at {hz} is outside the band"
        );
    }
    assert!(wifi_centre_hz(14).unwrap() > band::HIGH_HZ);
    assert_eq!(wifi_centre_hz(14).unwrap() - band::HIGH_HZ, 500_000);
}

#[test]
fn the_channels_sit_where_the_standard_puts_them() {
    assert_eq!(wifi_centre_hz(1), Some(2_412_000_000));
    assert_eq!(wifi_centre_hz(6), Some(2_437_000_000));
    assert_eq!(wifi_centre_hz(11), Some(2_462_000_000));
    assert_eq!(wifi_centre_hz(13), Some(2_472_000_000));
    assert_eq!(wifi_centre_hz(14), Some(2_484_000_000));
    assert_eq!(wifi_centre_hz(0), None);
    assert_eq!(wifi_centre_hz(15), None);
}

#[test]
fn every_channel_round_trips_through_its_centre() {
    for n in 1..=14u8 {
        let hz = wifi_centre_hz(n).unwrap();
        assert_eq!(wifi_channel(hz), Some(n), "channel {n}");
    }
}

#[test]
fn channel_fourteen_does_not_follow_the_spacing() {
    assert_eq!(
        wifi_centre_hz(14).unwrap() - wifi_centre_hz(13).unwrap(),
        12_000_000
    );
    assert_eq!(wifi_channel(2_477_000_000), None);
}

#[test]
fn a_frequency_between_channels_is_not_on_one() {
    assert_eq!(wifi_channel(2_439_500_000), None);
    assert_eq!(wifi_channel(2_437_000_000 + 1_000_000), Some(6));
    assert_eq!(wifi_channel(2_437_000_000 - 1_250_000), Some(6));
    assert_eq!(wifi_channel(2_437_000_000 + 1_500_000), None);
    assert_eq!(wifi_channel(100_000_000), None);
    assert_eq!(wifi_channel(5_180_000_000), None);
}

#[test]
fn the_plan_covers_the_whole_band() {
    for span in [
        2_000_000,
        8_000_000,
        10_000_000,
        18_000_000,
        20_000_000,
        40_000_000,
        100_000_000,
    ] {
        let plan = Plan::for_span(Some(span));
        let covered = plan.covered();
        let missed: Vec<usize> = (0..CELLS).filter(|c| !covered[*c]).collect();
        assert!(
            missed.is_empty(),
            "span {span}: {} hops missed cells {missed:?}",
            plan.hops.len()
        );
    }
}

#[test]
fn the_plan_is_the_fewest_positions_that_cover_the_band() {
    let plan = Plan::for_span(Some(18_000_000));
    assert_eq!(plan.hops.len(), 5);
    assert_eq!(
        plan.hops,
        vec![
            2_409_000_000,
            2_425_000_000,
            2_442_000_000,
            2_458_000_000,
            2_475_000_000
        ]
    );
    let steps: Vec<u64> = plan.hops.windows(2).map(|w| w[1] - w[0]).collect();
    let (lo, hi) = (steps.iter().min().unwrap(), steps.iter().max().unwrap());
    assert!(hi - lo <= 1_000_000, "{steps:?}");

    assert_eq!(Plan::for_span(Some(100_000_000)).hops.len(), 1);
    assert!(Plan::for_span(Some(0)).hops.is_empty());
    assert!(Plan::for_span(None).hops.is_empty());
}

#[test]
fn every_position_is_one_the_gate_admits() {
    for span in [8_000_000, 18_000_000, 20_000_000] {
        for hz in Plan::for_span(Some(span)).hops {
            assert!(
                (LOWEST_CENTRE_HZ..=HIGHEST_CENTRE_HZ).contains(&hz),
                "span {span} would tune to {hz}"
            );
        }
    }
}

#[test]
fn a_pass_is_the_settle_and_the_dwell_at_every_position() {
    let plan = Plan::for_span(Some(18_000_000));
    assert_eq!(plan.cycle(), (SETTLE_MS + DWELL_MS) * 5);
    assert_eq!(plan.cycle(), 625);
    let coverage = DWELL_MS as f64 / plan.cycle() as f64;
    assert!((coverage - 0.16).abs() < 0.01, "{coverage}");
}

#[test]
fn every_view_from_two_megahertz_on_covers_the_band() {
    for span in (2_000_000..170_000_000).step_by(250_000) {
        let plan = Plan::for_span(Some(span));
        assert_eq!(plan.span_hz, span as u64);
        let covered = plan.covered();
        assert_eq!(covered.len(), 83);
        assert!(covered.iter().all(|c| *c), "span {span}: {:?}", plan.hops);
        if (4_000_000..168_000_000).contains(&span) {
            let tunable = LOWEST_CENTRE_HZ..=HIGHEST_CENTRE_HZ;
            assert!(plan.hops.iter().all(|hz| tunable.contains(hz)), "span {span}");
        }
    }
    let between = Plan::for_span(Some(18_500_000));
    assert_eq!(
        between.hops,
        vec![2_409_000_000, 2_426_000_000, 2_442_000_000, 2_458_000_000, 2_474_000_000],
        "a view that leaves no gap is planned with as it is"
    );
    let fifteen = Plan::for_span(Some(15_000_000));
    assert_eq!(fifteen.hops[0], 2_407_000_000);
    assert_eq!(fifteen.hops.len(), 6);
    assert_eq!(Plan::for_span(Some(84_000_000)).hops, vec![2_442_000_000]);
}

fn device(last: u8, packets: u64, rssi: f64, ago_s: u64, now_ms: u64) -> Device {
    Device {
        address: [0xa4, 0x83, 0xe7, 0x1c, 0x09, last],
        packets,
        best_rssi: (rssi * 1e6) as i64,
        last_seen_ms: now_ms - ago_s * 1_000,
    }
}

const NOW: u64 = 1_000_000;

#[test]
fn an_address_reads_as_an_address() {
    assert_eq!(device(0xbe, 0, 0.0, 0, NOW).address_text(), "a4:83:e7:1c:09:be");
    assert_eq!(
        Device { address: [0, 0, 0, 0, 0, 0], ..device(0, 0, 0.0, 0, NOW) }.address_text(),
        "00:00:00:00:00:00"
    );
}

#[test]
fn every_column_orders_by_the_thing_it_names() {
    let make = || {
        vec![
            device(0x03, 10, -80.0, 30, NOW),
            device(0x01, 500, -41.0, 2, NOW),
            device(0x02, 7, -60.0, 90, NOW),
        ]
    };
    let tails = |d: &[Device]| d.iter().map(|x| x.address[5]).collect::<Vec<_>>();

    let mut d = make();
    order(&mut d, 0, false, NOW);
    assert_eq!(tails(&d), vec![1, 2, 3], "by address, ascending");

    let mut d = make();
    order(&mut d, 1, false, NOW);
    assert_eq!(tails(&d), vec![1, 3, 2], "most recently seen first");

    let mut d = make();
    order(&mut d, 2, true, NOW);
    assert_eq!(tails(&d), vec![1, 3, 2], "busiest first");

    let mut d = make();
    order(&mut d, 3, true, NOW);
    assert_eq!(tails(&d), vec![1, 2, 3], "strongest first");
}

#[test]
fn a_tie_is_broken_by_the_one_field_that_cannot_tie() {
    let mut a = vec![
        device(0x09, 42, -50.0, 5, NOW),
        device(0x02, 42, -50.0, 5, NOW),
        device(0x07, 42, -50.0, 5, NOW),
    ];
    let mut b = a.clone();
    b.reverse();
    order(&mut a, 2, true, NOW);
    order(&mut b, 2, true, NOW);
    let tails = |d: &[Device]| d.iter().map(|x| x.address[5]).collect::<Vec<_>>();
    assert_eq!(tails(&a), tails(&b), "the same rows in a different order in");
    assert_eq!(tails(&a), vec![2, 7, 9]);
}

#[test]
fn the_sort_keys_are_the_column_titles() {
    assert_eq!(sort_keys().len(), 4);
    assert!(sort_keys().contains(&"PKTS"));
}

/// Counts a scripted feed.
fn feed(blocks: &[(u64, bool, usize)], open: bool) -> NetDecodeHealth {
    let mut run = Run::default();
    let mut health = NetDecodeHealth::default();
    for &(seq, gap_before, pairs) in blocks {
        let arrival = Arrival { seq, gap_before, bytes: pairs * 2, now_ms: seq, open };
        run.absorb(&mut health, arrival, 2);
    }
    health
}

#[test]
fn an_unbroken_feed_reports_no_gaps_and_one_growing_run() {
    let h = feed(&[(1, false, 64), (2, false, 64), (3, false, 64)], true);
    assert_eq!(h.blocks_in, 3);
    assert_eq!(h.pairs_in, 192, "eight-bit pairs are two bytes each");
    assert_eq!((h.gaps, h.blocks_lost), (0, 0));
    assert_eq!(h.run_blocks, 3);
    assert!(h.last_block_ms.is_some());
}

#[test]
fn opening_the_section_mid_stream_is_not_an_interruption() {
    let h = feed(&[(9_412, false, 64), (9_413, false, 64)], true);
    assert_eq!(h.gaps, 0, "nothing was interrupted; nothing had started");
    assert_eq!(h.blocks_lost, 0);
    assert_eq!(h.run_blocks, 2, "and the run is the two blocks that arrived");
}

#[test]
fn a_gap_breaks_the_run_and_starts_a_new_one() {
    let h = feed(
        &[(1, false, 64), (2, false, 64), (3, false, 64), (4, true, 64)],
        true,
    );
    assert_eq!(h.gaps, 1);
    assert_eq!(h.blocks_lost, 1, "the floor: samples went, count unknown");
    assert_eq!(h.run_blocks, 1, "and the new run is one block long");
}

#[test]
fn blocks_lost_by_the_channel_are_counted_too() {
    let h = feed(&[(1, false, 64), (5, true, 64)], true);
    assert_eq!(h.blocks_lost, 4);
    assert_eq!(h.gaps, 1);
}

#[test]
fn closing_the_section_ends_the_run_rather_than_losing_it() {
    let h = feed(&[(1, false, 64), (9_000, false, 64)], false);
    assert_eq!(h.blocks_in, 2, "blocks in flight are still counted");
    assert_eq!((h.gaps, h.blocks_lost), (0, 0), "and the pause is not a loss");
}

#[test]
fn the_window_is_eight_microseconds_as_near_as_a_power_of_two_gets() {
    assert_eq!(bins_for(Some(2_000_000)), 16);
    assert_eq!(bins_for(Some(20_000_000)), 128);
    assert_eq!(bins_for(Some(10_000_000)), 64);
    assert_eq!(bins_for(Some(61_440_000)), 512);
    assert_eq!(bins_for(Some(0)), 16);
    assert_eq!(bins_for(None), 16);
}

#[test]
fn a_scan_without_a_view_has_nothing_to_transform() {
    for (centre, rate, span) in [(2_437_000_000, 20_000_000, 0), (-1, -20_000_000, -5)] {
        let scan = Scan::new(centre, rate, span);
        assert_eq!((scan.first, scan.end), (0, 0));
        assert!(scan.bin_cells.iter().all(Option::is_none));
        assert_eq!(scan.windows_in(1 << 20, 2), 0);
    }
    assert_eq!(Scan::new(2_437_000_000, -1, 18_000_000).n, 16);
}

#[test]
fn a_dwell_counts_the_windows_its_cells_were_busy_in() {
    let mut scan = Scan::new(2_437_000_000, 20_000_000, 18_000_000);
    assert!(scan.matches(2_437_000_000, 20_000_000, 18_000_000));
    assert!(!scan.matches(2_437_000_000, 20_000_000, 17_000_000));
    assert_eq!(scan.n, 128);
    assert_eq!((scan.first, scan.end), (28, 46));
    assert_eq!(scan.windows_in(128 * 2 * 3 + 5, 2), 3);
    let mut powers = vec![1u64; 128];
    powers[0] = 1_000;
    let row = scan.row(&powers);
    assert_eq!(row.len(), 18);
    assert!(row[37 - 28] >= 1_000);
    powers.extend(vec![1u64; 128]);
    let block = scan.plane(&powers, 2);
    assert_eq!(&block[..18], &row[..]);
    let floor = |trusted: bool| occupancy::Floor {
        power: 5,
        threshold: 500,
        spread: 30_000_000,
        tail: 2_000_000,
        busy: 0,
        of: block.len(),
        trusted,
    };
    scan.record(&block, 2, &floor(true));
    assert_eq!(scan.observed_samples(), 256);
    let out = scan.take();
    assert_eq!(out.cells[37].windows, 2);
    assert_eq!(out.cells[37].duty, duty_cycle(1, 2));
    assert_eq!(out.cells[30].duty, duty_cycle(0, 2));
    assert_eq!(out.cells[0].windows, 0);
    assert_eq!(out.noise, Some((5, 1)));
    assert_eq!((out.tail, out.spread), ((2_000_000, 1), (30_000_000, 1)));
    assert!(out.trusted);
    assert_eq!(scan.observed_samples(), 0, "a fresh start");
    scan.record(&block, 2, &floor(false));
    assert!(!scan.take().trusted);
}

fn radio(frequency: u64) -> RadioState {
    RadioState {
        frequency,
        rx_enabled: true,
        hw_streaming: true,
        sample_rate_hz: 20_000_000,
        bb_filter_hz: 18_000_000,
    }
}

#[test]
fn a_survey_walks_its_plan_and_gives_the_tuner_back() {
    let mut task = SurveyTask::new();
    let mut net = NetState::default();
    let mut r = radio(92_800_000);
    let (step, note) = task.top(true, &mut net, &mut r);
    assert!(matches!(step, SurveyMove::Pass));
    match note {
        Some(note) => assert!(note.text().starts_with("NET survey: 5 positions of 18.0 MHz")),
        None => panic!("the survey began in silence"),
    }
    assert_eq!(net.pre_survey_hz, Some(92_800_000));
    assert_eq!(task.visit(0, true, &net, &mut r), Some(2_409_000_000));
    assert_eq!(r.frequency, 2_409_000_000);
    assert_eq!(task.visit(5, true, &net, &mut r), None);
    task.finish_pass();
    assert_eq!(task.pass, 1);
    let (step, note) = task.top(false, &mut net, &mut r);
    assert!(matches!(step, SurveyMove::Restore { tune_hz: 92_800_000, .. }));
    assert!(matches!(note, Some(SurveyNote::Back(92_800_000))));
    assert_eq!(r.frequency, 92_800_000);
}

#[test]
fn a_locked_receiver_is_left_where_it_is() {
    let mut task = SurveyTask::new();
    let mut net = NetState::default();
    net.mode = NetMode::Lock;
    let mut r = radio(2_437_000_000);
    let (step, _) = task.top(true, &mut net, &mut r);
    assert!(matches!(step, SurveyMove::Sleep(_)));
    assert_eq!(r.frequency, 2_437_000_000);
    assert_eq!(NetMode::Lock.label(), "LOCK");
}
