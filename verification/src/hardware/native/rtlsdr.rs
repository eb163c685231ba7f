//! The RTL-SDR as it is described where its driver is not built in.

use crate::hardware::{
    AcquisitionKind, Boost, DeliveryModel, DeviceCapabilities, DeviceListing, GainModel, LevelUnit,
    SampleFormat, SampleGeometry, StageSpec,
};
use vstd::prelude::*;

verus! {

/// Without a driver there is no device to list.
pub fn list() -> (out: Vec<DeviceListing>)
    ensures
        out@.len() == 0,
{
    Vec::new()
}

/// One tuner stage with the given settings, or no stage where there are none.
pub open spec fn is_gain_model(m: GainModel, steps_db: Seq<u32>) -> bool {
    &&& if steps_db.len() == 0 {
        m.stages@.len() == 0
    } else {
        m.stages@.len() == 1 && m.stages@[0].is_tabled("Tuner"@, steps_db)
    }
    &&& m.primary@ == "Tuner"@
    &&& m.short@ == "TUN"@
    &&& !m.second_stage
    &&& m.boost == Boost::GainMode
    &&& m.chain_diagram@ == "TUNER"@
    &&& m.no_cascade_reason@ == "single tuner, no cascade"@
    &&& m.gauge_fallback == Some(49u32)
}

/// The one gain stage of the tuner, with the steps it offers.
pub fn gain_model(steps_db: &[u32]) -> (m: GainModel)
    ensures
        is_gain_model(m, steps_db@),
{
    let mut stages: Vec<StageSpec> = Vec::new();
    if steps_db.len() > 0 {
        let mut table: Vec<u32> = Vec::new();
        let mut i: usize = 0;
        while i < steps_db.len()
            invariant
                i <= steps_db@.len(),
                table@ == steps_db@.take(i as int),
            decreases steps_db@.len() - i,
        {
            assert(steps_db@.take(i + 1) == steps_db@.take(i as int).push(steps_db@[i as int]));
            table.push(steps_db[i]);
            i += 1;
        }
        assert(steps_db@.take(steps_db@.len() as int) == steps_db@);
        stages.push(StageSpec::tabled("Tuner", table));
    }
    let mut m = GainModel::new(stages, "Tuner", "TUN");
    m.boost = Boost::GainMode;
    m.chain_diagram = "TUNER";
    m.no_cascade_reason = "single tuner, no cascade";
    m.gauge_fallback = Some(49);
    m
}

/// The capabilities assumed of a dongle that is only observed.
pub fn observer_caps() -> (c: DeviceCapabilities)
    ensures
        c.acquisition == AcquisitionKind::IqSamples,
        !c.sample_rate_is_span,
        c.level_unit == LevelUnit::Dbfs,
        c.level_min == -120_000_000,
        c.level_max == 0,
        c.trace_stale_ms == 500,
        c.freq_min_hz == 24_000_000,
        c.freq_max_hz == 1_766_000_000,
        c.sample_rate_min_hz == 900_001,
        c.sample_rate_max_hz == 3_200_000,
        c.default_frequency_hz == 100_000_000,
        c.default_sample_rate_hz == 2_400_000,
        c.sample_geometry == (SampleGeometry { format: SampleFormat::Uint8, full_scale: 128 }),
        is_gain_model(c.gain, seq![0u32]),
        c.samples_per_transfer == 32_768,
        !c.has_bb_filter,
        !c.friis_applicable,
        c.delivery == DeliveryModel::Push,
{
    let flat: Vec<u32> = vec![0u32];
    assert(flat@ == seq![0u32]);
    DeviceCapabilities {
        acquisition: AcquisitionKind::IqSamples,
        sample_rate_is_span: false,
        level_unit: LevelUnit::Dbfs,
        level_min: -120_000_000,
        level_max: 0,
        trace_stale_ms: 500,
        freq_min_hz: 24_000_000,
        freq_max_hz: 1_766_000_000,
        sample_rate_min_hz: 900_001,
        sample_rate_max_hz: 3_200_000,
        default_frequency_hz: 100_000_000,
        default_sample_rate_hz: 2_400_000,
        sample_geometry: SampleGeometry { format: SampleFormat::Uint8, full_scale: 128 },
        gain: gain_model(flat.as_slice()),
        samples_per_transfer: 32_768,
        has_bb_filter: false,
        friis_applicable: false,
        delivery: DeliveryModel::Push,
    }
}

} // verus!
