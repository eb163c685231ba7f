//! Device backends and the values they share.

pub mod native;
pub mod tinysa;

use crate::text;
use vstd::prelude::*;

verus! {

/// What a device delivers.
#[derive(Clone, Copy, Debug, PartialEq, Eq, Structural)]
pub enum AcquisitionKind {
    IqSamples,
    PowerTrace,
}

/// The unit a device's levels are in.
#[derive(Clone, Copy, Debug, PartialEq, Eq, Structural)]
pub enum LevelUnit {
    Dbfs,
    Dbm,
}

impl LevelUnit {
    pub open spec fn word(self) -> Seq<char> {
        match self {
            LevelUnit::Dbfs => "dBFS"@,
            LevelUnit::Dbm => "dBm"@,
        }
    }

    /// The unit as it is written.
    pub fn label(self) -> (t: &'static str)
        ensures
            t@ == self.word(),
    {
        match self {
            LevelUnit::Dbfs => "dBFS",
            LevelUnit::Dbm => "dBm",
        }
    }
}

#[derive(Clone, Copy, Debug, PartialEq, Eq, Structural)]
pub enum SampleFormat {
    Int8,
    Uint8,
}

/// How a sample is coded, and the code that stands for full scale.
#[derive(Clone, Copy, Debug, PartialEq, Eq, Structural)]
pub struct SampleGeometry {
    pub format: SampleFormat,
    pub full_scale: u32,
}

/// Whether a device pushes its blocks or is asked for them.
#[derive(Clone, Copy, Debug, PartialEq, Eq, Structural)]
pub enum DeliveryModel {
    Push,
    Pull,
}

/// The settings of one gain stage, in decibels.
#[derive(Debug)]
pub enum StageSteps {
    Ranged { min_db: u32, max_db: u32, step_db: u32 },
    Tabled(Vec<u32>),
}

/// One gain stage.
#[derive(Debug)]
pub struct StageSpec {
    pub name: &'static str,
    pub steps: StageSteps,
}

impl StageSpec {
    pub open spec fn is_ranged(self, name: Seq<char>, min: u32, max: u32, step: u32) -> bool {
        &&& self.name@ == name
        &&& self.steps == (StageSteps::Ranged { min_db: min, max_db: max, step_db: step })
    }

    pub open spec fn is_tabled(self, name: Seq<char>, table: Seq<u32>) -> bool {
        &&& self.name@ == name
        &&& self.steps matches StageSteps::Tabled(t) && t@ == table
    }

    /// A stage with evenly spaced settings.
    pub fn ranged(name: &'static str, min_db: u32, max_db: u32, step_db: u32) -> (s: Self)
        ensures
            s.is_ranged(name@, min_db, max_db, step_db),
    {
        StageSpec { name, steps: StageSteps::Ranged { min_db, max_db, step_db } }
    }

    /// A stage with a table of settings.
    pub fn tabled(name: &'static str, table: Vec<u32>) -> (s: Self)
        ensures
            s.is_tabled(name@, table@),
    {
        StageSpec { name, steps: StageSteps::Tabled(table) }
    }
}

/// What the boost key does.
#[derive(Debug)]
pub enum Boost {
    Nothing,
    Element(StageSpec),
    GainMode,
}

/// The gain stages of a device and how they are shown.
#[derive(Debug)]
pub struct GainModel {
    pub stages: Vec<StageSpec>,
    pub primary: &'static str,
    pub short: &'static str,
    pub second_stage: bool,
    pub boost: Boost,
    pub chain_diagram: &'static str,
    pub no_cascade_reason: &'static str,
    pub gauge_fallback: Option<u32>,
}

impl GainModel {
    /// A model with the given stages and nothing else set.
    pub fn new(stages: Vec<StageSpec>, primary: &'static str, short: &'static str) -> (m: Self)
        ensures
            m.stages == stages,
            m.primary@ == primary@,
            m.short@ == short@,
            !m.second_stage,
            m.boost == Boost::Nothing,
            m.chain_diagram@ == ""@,
            m.no_cascade_reason@ == ""@,
            m.gauge_fallback is None,
    {
        GainModel {
            stages,
            primary,
            short,
            second_stage: false,
            boost: Boost::Nothing,
            chain_diagram: "",
            no_cascade_reason: "",
            gauge_fallback: None,
        }
    }
}

/// What a device can do.
#[derive(Debug)]
pub struct DeviceCapabilities {
    pub acquisition: AcquisitionKind,
    pub sample_rate_is_span: bool,
    pub level_unit: LevelUnit,
    /// The lowest and the highest level shown, in micro-decibels.
    pub level_min: i64,
    pub level_max: i64,
    pub trace_stale_ms: u64,
    pub freq_min_hz: u64,
    pub freq_max_hz: u64,
    pub sample_rate_min_hz: u64,
    pub sample_rate_max_hz: u64,
    pub default_frequency_hz: u64,
    pub default_sample_rate_hz: u64,
    pub sample_geometry: SampleGeometry,
    pub gain: GainModel,
    pub samples_per_transfer: u32,
    pub has_bb_filter: bool,
    pub friis_applicable: bool,
    pub delivery: DeliveryModel,
}

#[derive(Clone, Copy, Debug, PartialEq, Eq, Structural)]
pub enum DeviceKind {
    HackRf,
    RtlSdr,
    Soapy,
    TinySa,
}

/// One device a user can pick.
#[derive(Debug)]
pub struct DeviceListing {
    pub kind: DeviceKind,
    pub index: usize,
    pub label: String,
    pub serial: Option<String>,
    pub args: Option<String>,
    pub path: Option<String>,
    pub tiny_sa_input: Option<tinysa::BasicInput>,
}

/// A band the device itself sweeps. Two requests for one band differ in their generation.
#[derive(Clone, Copy, Debug, PartialEq, Eq, Structural)]
pub struct DirectSweepConfig {
    pub start_hz: u64,
    pub stop_hz: u64,
    pub generation: u64,
}

/// What a trace of power levels was measured for.
#[derive(Clone, Copy, Debug, PartialEq, Eq, Structural)]
pub enum PowerTraceTarget {
    Spectrum,
    Sweep,
}

/// A setting a device exposes, with the choices it takes.
#[derive(Debug)]
pub struct DeviceOption {
    pub id: String,
    pub label: String,
    pub choices: Vec<String>,
    pub selected_choice: String,
    pub integer_range: Option<(i64, i64)>,
}

/// Why a list of device options is not one a device may report.
#[derive(Clone, Copy, Debug, PartialEq, Eq, Structural)]
pub enum OptionFault {
    NoChoice { index: usize },
    UnavailableSelection { index: usize },
    DuplicateId { index: usize },
}

/// Whether an option lists a choice.
pub open spec fn lists_choice(option: DeviceOption, choice: Seq<char>) -> bool {
    exists|k: int| 0 <= k < option.choices@.len() && (#[trigger] option.choices@[k])@ == choice
}

/// The fault of the option at `index`, given those before it.
pub open spec fn option_fault_at(options: Seq<DeviceOption>, index: int) -> Option<OptionFault> {
    let option = options[index];
    if option.choices@.len() == 0 {
        Some(OptionFault::NoChoice { index: index as usize })
    } else if !lists_choice(option, option.selected_choice@) {
        Some(OptionFault::UnavailableSelection { index: index as usize })
    } else if exists|j: int| 0 <= j < index && (#[trigger] options[j]).id@ == option.id@ {
        Some(OptionFault::DuplicateId { index: index as usize })
    } else {
        None
    }
}

/// The first fault of a list of options from `index` on.
pub open spec fn options_fault(options: Seq<DeviceOption>, index: int) -> Option<OptionFault>
    decreases options.len() - index,
{
    if index >= options.len() {
        None
    } else if option_fault_at(options, index) is Some {
        option_fault_at(options, index)
    } else {
        options_fault(options, index + 1)
    }
}

impl DeviceOption {
    /// The position of a choice among those listed.
    pub fn position_of(&self, choice: &String) -> (r: Option<usize>)
        ensures
            match r {
                Some(i) => {
                    &&& i < self.choices@.len()
                    &&& self.choices@[i as int]@ == choice@
                    &&& forall|k: int| 0 <= k < i ==> (#[trigger] self.choices@[k])@ != choice@
                },
                None => !lists_choice(*self, choice@),
            },
    {
        let mut i: usize = 0;
        while i < self.choices.len()
            invariant
                i <= self.choices@.len(),
                forall|k: int| 0 <= k < i ==> (#[trigger] self.choices@[k])@ != choice@,
            decreases self.choices@.len() - i,
        {
            if self.choices[i] == *choice {
                return Some(i);
            }
            i += 1;
        }
        None
    }
}

/// Whether an id occurs before position `index`.
fn id_seen(options: &[DeviceOption], index: usize) -> (r: bool)
    requires
        index < options@.len(),
    ensures
        r == exists|j: int| 0 <= j < index && (#[trigger] options@[j]).id@ == options@[index as int].id@,
{
    let mut j: usize = 0;
    while j < index
        invariant
            j <= index < options@.len(),
            forall|k: int| 0 <= k < j ==> (#[trigger] options@[k]).id@ != options@[index as int].id@,
        decreases index - j,
    {
        if options[j].id == options[index].id {
            return true;
        }
        j += 1;
    }
    false
}

/// Checks what every list of device options must hold to: each option offers a
/// choice, its selection is one of them, and no two options share an id.
pub fn check_device_options(options: &[DeviceOption]) -> (r: Option<OptionFault>)
    ensures
        r == options_fault(options@, 0),
{
    let mut index: usize = 0;
    while index < options.len()
        invariant
            index <= options@.len(),
            options_fault(options@, 0) == options_fault(options@, index as int),
        decreases options@.len() - index,
    {
        let option = &options[index];
        if option.choices.len() == 0 {
            return Some(OptionFault::NoChoice { index });
        }
        if option.position_of(&option.selected_choice).is_none() {
            return Some(OptionFault::UnavailableSelection { index });
        }
        if id_seen(options, index) {
            return Some(OptionFault::DuplicateId { index });
        }
        index += 1;
    }
    None
}

impl OptionFault {
    pub open spec fn text(self, options: Seq<DeviceOption>) -> Seq<char> {
        match self {
            OptionFault::NoChoice { index } => "device option '"@ + options[index as int].id@
                + "' must advertise a choice"@,
            OptionFault::UnavailableSelection { index } => "device option '"@
                + options[index as int].id@ + "' selected an unavailable choice"@,
            OptionFault::DuplicateId {
                index,
            } => "device option IDs must be unique within a snapshot"@,
        }
    }

    pub open spec fn index_of(self) -> usize {
        match self {
            OptionFault::NoChoice { index } => index,
            OptionFault::UnavailableSelection { index } => index,
            OptionFault::DuplicateId { index } => index,
        }
    }

    /// The sentence shown for the fault.
    pub fn message(self, options: &[DeviceOption]) -> (out: String)
        requires
            self.index_of() < options@.len(),
        ensures
            out@ == self.text(options@),
    {
        let mut t: Vec<char> = Vec::new();
        match self {
            OptionFault::NoChoice { index } => {
                text::push_str(&mut t, "device option '");
                text::push_str(&mut t, options[index].id.as_str());
                text::push_str(&mut t, "' must advertise a choice");
            },
            OptionFault::UnavailableSelection { index } => {
                text::push_str(&mut t, "device option '");
                text::push_str(&mut t, options[index].id.as_str());
                text::push_str(&mut t, "' selected an unavailable choice");
            },
            OptionFault::DuplicateId { index: _ } => {
                text::push_str(&mut t, "device option IDs must be unique within a snapshot");
            },
        }
        assert(t@ == self.text(options@));
        text::from_chars(t.as_slice())
    }
}

/// A list of options is without fault where every option offers a choice, selects one it
/// offers, and shares its id with no other. What is told of a faulty one is true of the
/// first option at fault.
pub proof fn law_a_fault_is_the_first_there_is(options: Seq<DeviceOption>)
    requires
        options.len() <= usize::MAX,
    ensures
        match options_fault(options, 0) {
            None => {
                &&& forall|i: int|
                    0 <= i < options.len() ==> (#[trigger] options[i]).choices@.len() > 0
                        && exists|k: int|
                        0 <= k < options[i].choices@.len() && (#[trigger] options[i].choices@[k])@
                            == options[i].selected_choice@
                &&& forall|i: int, j: int|
                    0 <= j < i < options.len() ==> (#[trigger] options[j]).id@ != (
                    #[trigger] options[i]).id@
            },
            Some(OptionFault::NoChoice { index }) => index < options.len()
                && options[index as int].choices@.len() == 0,
            Some(OptionFault::UnavailableSelection { index }) => index < options.len()
                && options[index as int].choices@.len() > 0 && forall|k: int|
                0 <= k < options[index as int].choices@.len() ==> (
                #[trigger] options[index as int].choices@[k])@
                    != options[index as int].selected_choice@,
            Some(OptionFault::DuplicateId { index }) => index < options.len() && exists|j: int|
                0 <= j < index && (#[trigger] options[j]).id@ == options[index as int].id@,
        },
{
    lemma_fault_from(options, 0);
}

proof fn lemma_fault_from(options: Seq<DeviceOption>, from: int)
    requires
        0 <= from <= options.len() <= usize::MAX,
        forall|i: int| 0 <= i < from ==> #[trigger] option_fault_at(options, i) is None,
    ensures
        match options_fault(options, from) {
            None => forall|i: int|
                0 <= i < options.len() ==> #[trigger] option_fault_at(options, i) is None,
            Some(f) => f.index_of() < options.len() && option_fault_at(
                options,
                f.index_of() as int,
            ) == Some(f),
        },
        options_fault(options, from) is None ==> forall|i: int|
            0 <= i < options.len() ==> (#[trigger] options[i]).choices@.len() > 0 && lists_choice(
                options[i],
                options[i].selected_choice@,
            ),
        options_fault(options, from) is None ==> forall|i: int, j: int|
            0 <= j < i < options.len() ==> (#[trigger] options[j]).id@ != (#[trigger] options[i]).id@,
    decreases options.len() - from,
{
    if from < options.len() && option_fault_at(options, from) is None {
        lemma_fault_from(options, from + 1);
    } else if from >= options.len() {
        assert forall|i: int| 0 <= i < options.len() implies (#[trigger] options[i]).choices@.len()
            > 0 && lists_choice(options[i], options[i].selected_choice@) by {
            assert(option_fault_at(options, i) is None);
        }
        assert forall|i: int, j: int| 0 <= j < i < options.len() implies (#[trigger] options[j]).id@
            != (#[trigger] options[i]).id@ by {
            assert(option_fault_at(options, i) is None);
        }
    }
}

} // verus!
