//! The HackRF as it is described where its driver is not built in.

use crate::hardware::{
    AcquisitionKind, Boost, DeliveryModel, DeviceCapabilities, DeviceListing, GainModel, LevelUnit,
    SampleFormat, SampleGeometry, StageSpec,
};
use crate::state::{DEFAULT_FREQUENCY, DEFAULT_SAMPLE_RATE, HACKRF_SAMPLES_PER_TRANSFER};
use vstd::prelude::*;

verus! {

/// Without a driver there is no device to list.
pub fn list() -> (out: Vec<DeviceListing>)
    ensures
        out@.len() == 0,
{
    Vec::new()
}

/// The two gain stages and the switchable amplifier.
pub open spec fn is_gain_model(m: GainModel) -> bool {
    &&& m.stages@.len() == 2
    &&& m.stages@[0].is_ranged("LNA"@, 0, 40, 8)
    &&& m.stages@[1].is_ranged("VGA"@, 0, 62, 2)
    &&& m.primary@ == "LNA"@
    &&& m.short@ == "LNA"@
    &&& m.second_stage
    &&& m.boost matches Boost::Element(e) && e.is_ranged("AMP"@, 0, 14, 14)
    &&& m.chain_diagram@ == "LNA\u{25b8}MIX\u{25b8}VGA"@
    &&& m.no_cascade_reason@ == "no cascade"@
    &&& m.gauge_fallback is None
}

/// The gain stages of the board.
pub fn gain_model() -> (m: GainModel)
    ensures
        is_gain_model(m),
{
    let mut stages: Vec<StageSpec> = Vec::new();
    stages.push(StageSpec::ranged("LNA", 0, 40, 8));
    stages.push(StageSpec::ranged("VGA", 0, 62, 2));
    let mut m = GainModel::new(stages, "LNA", "LNA");
    m.second_stage = true;
    m.boost = Boost::Element(StageSpec::ranged("AMP", 0, 14, 14));
    m.chain_diagram = "LNA\u{25b8}MIX\u{25b8}VGA";
    m.no_cascade_reason = "no cascade";
    m
}

/// The capabilities of the board.
pub fn caps() -> (c: DeviceCapabilities)
    ensures
        c.acquisition == AcquisitionKind::IqSamples,
        !c.sample_rate_is_span,
        c.level_unit == LevelUnit::Dbfs,
        c.level_min == -120_000_000,
        c.level_max == 0,
        c.trace_stale_ms == 500,
        c.freq_min_hz == 1_000_000,
        c.freq_max_hz == 6_000_000_000,
        c.sample_rate_min_hz == 2_000_000,
        c.sample_rate_max_hz == 20_000_000,
        c.default_frequency_hz == DEFAULT_FREQUENCY,
        c.default_sample_rate_hz == DEFAULT_SAMPLE_RATE,
        c.sample_geometry == (SampleGeometry { format: SampleFormat::Int8, full_scale: 128 }),
        is_gain_model(c.gain),
        c.samples_per_transfer == HACKRF_SAMPLES_PER_TRANSFER,
        c.has_bb_filter,
        c.friis_applicable,
        c.delivery == DeliveryModel::Push,
{
    DeviceCapabilities {
        acquisition: AcquisitionKind::IqSamples,
        sample_rate_is_span: false,
        level_unit: LevelUnit::Dbfs,
        level_min: -120_000_000,
        level_max: 0,
        trace_stale_ms: 500,
        freq_min_hz: 1_000_000,
        freq_max_hz: 6_000_000_000,
        sample_rate_min_hz: 2_000_000,
        sample_rate_max_hz: 20_000_000,
        default_frequency_hz: DEFAULT_FREQUENCY,
        default_sample_rate_hz: DEFAULT_SAMPLE_RATE,
        sample_geometry: SampleGeometry { format: SampleFormat::Int8, full_scale: 128 },
        gain: gain_model(),
        samples_per_transfer: HACKRF_SAMPLES_PER_TRANSFER,
        has_bb_filter: true,
        friis_applicable: true,
        delivery: DeliveryModel::Push,
    }
}

/// What a board revision number stands for.
pub open spec fn rev_name(rev: u8) -> Seq<char> {
    if rev == 0 {
        "HackRF One (old)"@
    } else if rev == 6 {
        "HackRF One r6"@
    } else if rev == 7 {
        "HackRF One r7"@
    } else if rev == 8 {
        "HackRF One r8"@
    } else if rev == 9 {
        "HackRF One r9"@
    } else if rev == 10 {
        "HackRF One r10"@
    } else if rev == 0xfe {
        "Undetected"@
    } else if rev == 0xff {
        "Unrecognized"@
    } else {
        "Unknown"@
    }
}

/// What a board revision is called.
pub fn board_rev_name(rev: u8) -> (name: &'static str)
    ensures
        name@ == rev_name(rev),
{
    match rev {
        0 => "HackRF One (old)",
        6 => "HackRF One r6",
        7 => "HackRF One r7",
        8 => "HackRF One r8",
        9 => "HackRF One r9",
        10 => "HackRF One r10",
        0xfe => "Undetected",
        0xff => "Unrecognized",
        _ => "Unknown",
    }
}

/// The bandwidths the baseband filter can be set to, in hertz.
pub open spec fn filter_steps() -> Seq<u32> {
    seq![
        1_750_000u32,
        2_500_000u32,
        3_500_000u32,
        5_000_000u32,
        5_500_000u32,
        6_000_000u32,
        7_000_000u32,
        8_000_000u32,
        9_000_000u32,
        10_000_000u32,
        12_000_000u32,
        14_000_000u32,
        15_000_000u32,
        20_000_000u32,
        24_000_000u32,
        28_000_000u32,
    ]
}

/// How far two bandwidths are apart.
pub open spec fn distance(a: u32, b: u32) -> int {
    if a >= b {
        a - b
    } else {
        b - a
    }
}

/// Whether `i` is the first of the filter steps nearest to a sample rate.
pub open spec fn is_nearest_step(i: int, rate: u32) -> bool {
    &&& 0 <= i < filter_steps().len()
    &&& forall|j: int|
        0 <= j < filter_steps().len() ==> distance(filter_steps()[i], rate) <= distance(
            #[trigger] filter_steps()[j],
            rate,
        )
    &&& forall|j: int|
        0 <= j < i ==> distance(filter_steps()[i], rate) < distance(
            #[trigger] filter_steps()[j],
            rate,
        )
}

/// The baseband filter bandwidth nearest to a sample rate, the narrower of two
/// that are equally near.
pub fn compute_bb_filter_bw(sample_rate_hz: u32) -> (bandwidth: u32)
    ensures
        exists|i: int| #[trigger] is_nearest_step(i, sample_rate_hz) && bandwidth == filter_steps()[i],
{
    let steps: Vec<u32> = vec![
        1_750_000u32,
        2_500_000u32,
        3_500_000u32,
        5_000_000u32,
        5_500_000u32,
        6_000_000u32,
        7_000_000u32,
        8_000_000u32,
        9_000_000u32,
        10_000_000u32,
        12_000_000u32,
        14_000_000u32,
        15_000_000u32,
        20_000_000u32,
        24_000_000u32,
        28_000_000u32,
    ];
    assert(steps@ == filter_steps());
    let mut best: usize = 0;
    let mut i: usize = 1;
    while i < steps.len()
        invariant
            steps@ == filter_steps(),
            1 <= i <= steps@.len(),
            best < i,
            forall|j: int|
                0 <= j < i ==> distance(filter_steps()[best as int], sample_rate_hz) <= distance(
                    #[trigger] filter_steps()[j],
                    sample_rate_hz,
                ),
            forall|j: int|
                0 <= j < best ==> distance(filter_steps()[best as int], sample_rate_hz) < distance(
                    #[trigger] filter_steps()[j],
                    sample_rate_hz,
                ),
        decreases steps@.len() - i,
    {
        if gap(steps[i], sample_rate_hz) < gap(steps[best], sample_rate_hz) {
            best = i;
        }
        i += 1;
    }
    assert(is_nearest_step(best as int, sample_rate_hz));
    steps[best]
}

/// How far two bandwidths are apart.
fn gap(a: u32, b: u32) -> (d: u32)
    ensures
        d == distance(a, b),
{
    if a >= b {
        a - b
    } else {
        b - a
    }
}

/// A higher rate never gets a narrower filter, and a rate that a filter is made for gets
/// that filter.
pub proof fn law_filters_widen_with_the_rate(i: int, j: int, slow: u32, fast: u32)
    requires
        is_nearest_step(i, slow),
        is_nearest_step(j, fast),
        slow <= fast,
    ensures
        filter_steps()[i] <= filter_steps()[j],
        filter_steps().contains(slow) ==> filter_steps()[i] == slow,
        slow < 1_750_000 ==> filter_steps()[i] == 1_750_000,
        28_000_000 < fast ==> filter_steps()[j] == 28_000_000,
{
    assert(filter_steps()[0] == 1_750_000);
    assert(filter_steps()[15] == 28_000_000);
    if j < i {
        assert(distance(filter_steps()[i], slow) < distance(filter_steps()[j], slow));
        assert(distance(filter_steps()[j], fast) <= distance(filter_steps()[i], fast));
        assert(filter_steps()[j] < filter_steps()[i]);
    }
    if filter_steps().contains(slow) {
        let k = filter_steps().index_of(slow);
        assert(filter_steps()[k] == slow);
    }
}

} // verus!
