//! Walks the 2.4 GHz band while its section is open and the mode is survey.
//!
//! Retune, settle, dwell, advance. What the radio is pointed at is measured
//! elsewhere; this decides only where that is, and puts the tuning back.

use crate::signal::net::occupancy;
use crate::signal::net::survey;
use crate::signal::net::survey::Plan;
use crate::state::net::{NetMode, NetState};
use crate::state::RadioState;
use crate::text;
use crate::units;
use vstd::prelude::*;

verus! {

/// How often to look again when there is nothing to do.
pub const IDLE_POLL_MS: u64 = 100;

/// How long a position lasts: settle, then dwell.
pub const POSITION_MS: u64 = 125;

/// A line for the log.
#[derive(Clone, Copy, Debug, PartialEq, Eq, Structural)]
pub enum SurveyNote {
    Started { positions: usize, view_hz: u64, pass_ms: u64, covered: usize },
    TooNarrow(u64),
    Locked(u64),
    Back(u64),
}

impl SurveyNote {
    pub open spec fn line(self) -> Seq<char> {
        match self {
            SurveyNote::Started { positions, view_hz, pass_ms, covered } => "NET survey: "@
                + text::decimal(positions as nat) + " positions of "@ + units::mhz_tenths(view_hz)
                + " MHz, "@ + text::decimal(pass_ms as nat) + " ms a pass, "@ + text::decimal(
                covered as nat,
            ) + " of "@ + text::decimal(occupancy::CELLS as nat) + " MHz covered"@,
            SurveyNote::TooNarrow(view_hz) => "NET survey: "@ + units::mhz_tenths(view_hz)
                + " MHz of view is too narrow to measure past the local oscillator; lock to a channel instead"@,
            SurveyNote::Locked(hz) => "NET locked to "@ + units::mhz_thousandths(hz) + " MHz"@,
            SurveyNote::Back(hz) => "NET survey stopped, back to "@ + units::mhz_thousandths(hz)
                + " MHz"@,
        }
    }

    /// The line as text.
    pub fn text(&self) -> (out: String)
        ensures
            out@ == self.line(),
    {
        let mut t: Vec<char> = Vec::new();
        match self {
            SurveyNote::Started { positions, view_hz, pass_ms, covered } => {
                text::push_str(&mut t, "NET survey: ");
                text::push_decimal(&mut t, *positions as u64);
                text::push_str(&mut t, " positions of ");
                units::push_mhz_tenths(&mut t, *view_hz);
                text::push_str(&mut t, " MHz, ");
                text::push_decimal(&mut t, *pass_ms);
                text::push_str(&mut t, " ms a pass, ");
                text::push_decimal(&mut t, *covered as u64);
                text::push_str(&mut t, " of ");
                text::push_decimal(&mut t, occupancy::CELLS as u64);
                text::push_str(&mut t, " MHz covered");
            },
            SurveyNote::TooNarrow(view_hz) => {
                text::push_str(&mut t, "NET survey: ");
                units::push_mhz_tenths(&mut t, *view_hz);
                text::push_str(
                    &mut t,
                    " MHz of view is too narrow to measure past the local oscillator; lock to a channel instead",
                );
            },
            SurveyNote::Locked(hz) => {
                text::push_str(&mut t, "NET locked to ");
                units::push_mhz_thousandths(&mut t, *hz);
                text::push_str(&mut t, " MHz");
            },
            SurveyNote::Back(hz) => {
                text::push_str(&mut t, "NET survey stopped, back to ");
                units::push_mhz_thousandths(&mut t, *hz);
                text::push_str(&mut t, " MHz");
            },
        }
        assert(t@ == self.line());
        text::from_chars(t.as_slice())
    }
}

/// What to do at the top of the loop.
#[derive(Clone, Copy, Debug, PartialEq, Eq, Structural)]
pub enum SurveyMove {
    Sleep(u64),
    /// Give the tuner back, then sleep.
    Restore { tune_hz: u64, sleep_ms: u64 },
    /// Visit the positions of the plan.
    Pass,
}

/// A survey in progress.
pub struct SurveyTask {
    pub surveying: bool,
    /// How many passes were made.
    pub pass: u64,
    /// Whether the user was told that this radio cannot survey.
    pub refused: bool,
    pub plan: Plan,
}

/// Whether the radio is to be walked over the band.
pub open spec fn wanted(section_open: bool, net: NetState, radio: RadioState) -> bool {
    section_open && net.mode == NetMode::Survey && radio.hw_streaming
}

/// How much of the band the radio sees at once: the baseband filter where there
/// is one and it is the narrower.
pub open spec fn view_of(radio: RadioState) -> u64 {
    if radio.bb_filter_hz > 0 && radio.bb_filter_hz <= radio.sample_rate_hz {
        radio.bb_filter_hz as u64
    } else {
        radio.sample_rate_hz
    }
}

/// How many of the cells are seen.
pub open spec fn seen_count(seen: Seq<bool>) -> nat
    decreases seen.len(),
{
    if seen.len() == 0 {
        0
    } else {
        seen_count(seen.drop_last()) + if seen.last() {
            1nat
        } else {
            0nat
        }
    }
}

/// Whether each cell of the band is seen by a plan.
pub open spec fn view_over_band(plan: Plan) -> Seq<bool> {
    Seq::new(occupancy::CELLS as nat, |c: int| plan.sees(c))
}

/// Counts the cells that are seen.
fn count_seen(seen: &[bool]) -> (n: usize)
    ensures
        n == seen_count(seen@),
        n <= seen@.len(),
{
    let mut n: usize = 0;
    let mut i: usize = 0;
    while i < seen.len()
        invariant
            n <= i <= seen@.len(),
            n == seen_count(seen@.take(i as int)),
        decreases seen@.len() - i,
    {
        assert(seen@.take(i + 1).drop_last() == seen@.take(i as int));
        if seen[i] {
            n += 1;
        }
        i += 1;
    }
    assert(seen@.take(i as int) == seen@);
    n
}

/// What happens at the top of the loop.
pub open spec fn topped(
    before: SurveyTask,
    section_open: bool,
    net: NetState,
    radio: RadioState,
    after: SurveyTask,
    net_after: NetState,
    radio_after: RadioState,
    r: (SurveyMove, Option<SurveyNote>),
) -> bool {
    &&& after.pass == before.pass
    &&& !wanted(section_open, net, radio) ==> {
        &&& after.refused == before.refused
        &&& after.plan == before.plan
        &&& !after.surveying
        &&& if before.surveying {
            let exit = net.exit_from(radio.frequency);
            &&& net_after == (NetState { pre_survey_hz: None, ..net })
            &&& radio_after == (RadioState { frequency: exit.tune_hz, ..radio })
            &&& r.0 == (SurveyMove::Restore {
                tune_hz: exit.tune_hz,
                sleep_ms: IDLE_POLL_MS,
            })
            &&& r.1 == Some(
                if exit.locked {
                    SurveyNote::Locked(exit.tune_hz)
                } else {
                    SurveyNote::Back(exit.tune_hz)
                },
            )
        } else {
            &&& net_after == net
            &&& radio_after == radio
            &&& r == (SurveyMove::Sleep(IDLE_POLL_MS), None::<SurveyNote>)
        }
    }
    &&& wanted(section_open, net, radio) ==> {
        let view = view_of(radio);
        &&& after.plan.suits(view as int)
        &&& radio_after == radio
        &&& if seen_count(view_over_band(after.plan)) == 0 {
            &&& after.refused
            &&& after.surveying == before.surveying
            &&& net_after == net
            &&& r.0 == SurveyMove::Sleep(IDLE_POLL_MS)
            &&& r.1 == if before.refused {
                None
            } else {
                Some(SurveyNote::TooNarrow(view))
            }
        } else {
            &&& !after.refused
            &&& after.surveying
            &&& net_after == if before.surveying {
                net
            } else {
                NetState { pre_survey_hz: Some(radio.frequency), ..net }
            }
            &&& r.0 == SurveyMove::Pass
            &&& r.1 == if before.surveying {
                None
            } else {
                Some(
                    SurveyNote::Started {
                        positions: after.plan.hops@.len() as usize,
                        view_hz: view,
                        pass_ms: (125 * after.plan.hops@.len()) as u64,
                        covered: seen_count(view_over_band(after.plan)) as usize,
                    },
                )
            }
        }
    }
}

/// What a visit to a position does.
pub open spec fn visited(
    plan: Plan,
    index: usize,
    section_open: bool,
    net: NetState,
    before: RadioState,
    after: RadioState,
    r: Option<u64>,
) -> bool {
    if section_open && net.mode == NetMode::Survey && index < plan.hops@.len() {
        &&& r == Some(plan.hops@[index as int])
        &&& after == (RadioState { frequency: plan.hops@[index as int], ..before })
    } else {
        &&& r is None
        &&& after == before
    }
}

impl SurveyTask {
    /// Nothing surveyed yet.
    pub fn new() -> (t: Self)
        ensures
            !t.surveying && t.pass == 0 && !t.refused,
            t.plan.hops@.len() == 0 && t.plan.span_hz == 0,
    {
        SurveyTask {
            surveying: false,
            pass: 0,
            refused: false,
            plan: Plan { hops: Vec::new(), span_hz: 0 },
        }
    }

    /// The top of the loop: starts a survey when one is wanted and the radio sees
    /// enough, gives the tuner back when it no longer is.
    pub fn top(&mut self, section_open: bool, net: &mut NetState, radio: &mut RadioState) -> (r: (
        SurveyMove,
        Option<SurveyNote>,
    ))
        requires
            old(radio).sample_rate_hz <= i64::MAX,
        ensures
            topped(
                *old(self),
                section_open,
                *old(net),
                *old(radio),
                *final(self),
                *final(net),
                *final(radio),
                r,
            ),
    {
        let active = section_open && net.mode == NetMode::Survey && radio.hw_streaming;
        if !active {
            if !self.surveying {
                return (SurveyMove::Sleep(IDLE_POLL_MS), None);
            }
            self.surveying = false;
            let exit = net.end(radio.frequency);
            radio.frequency = exit.tune_hz;
            let note = if exit.locked {
                SurveyNote::Locked(exit.tune_hz)
            } else {
                SurveyNote::Back(exit.tune_hz)
            };
            return (
                SurveyMove::Restore { tune_hz: exit.tune_hz, sleep_ms: IDLE_POLL_MS },
                Some(note),
            );
        }
        let view: u64 = if radio.bb_filter_hz > 0 && radio.bb_filter_hz as u64
            <= radio.sample_rate_hz {
            radio.bb_filter_hz as u64
        } else {
            radio.sample_rate_hz
        };
        self.plan = Plan::for_span(Some(view as i64));
        let seen = self.plan.covered();
        assert(seen@ == view_over_band(self.plan));
        let covered: usize = count_seen(seen.as_slice());
        if covered == 0 {
            let note = if self.refused {
                None
            } else {
                Some(SurveyNote::TooNarrow(view))
            };
            self.refused = true;
            return (SurveyMove::Sleep(IDLE_POLL_MS), note);
        }
        self.refused = false;
        if self.surveying {
            return (SurveyMove::Pass, None);
        }
        self.surveying = true;
        net.pre_survey_hz = Some(radio.frequency);
        let note = SurveyNote::Started {
            positions: self.plan.hops.len(),
            view_hz: view,
            pass_ms: self.plan.cycle(),
            covered,
        };
        (SurveyMove::Pass, Some(note))
    }

    /// Goes to a position of the pass and says where to tune, or that there is no
    /// further position or the survey is no longer wanted.
    pub fn visit(&self, index: usize, section_open: bool, net: &NetState, radio: &mut RadioState) -> (r:
        Option<u64>)
        ensures
            visited(self.plan, index, section_open, *net, *old(radio), *final(radio), r),
    {
        if !section_open || net.mode != NetMode::Survey || index >= self.plan.hops.len() {
            return None;
        }
        let hz: u64 = self.plan.hops[index];
        radio.frequency = hz;
        Some(hz)
    }

    /// Ends a pass.
    pub fn finish_pass(&mut self)
        ensures
            final(self).pass == if old(self).pass == u64::MAX {
                0
            } else {
                (old(self).pass + 1) as u64
            },
            final(self).plan == old(self).plan,
            final(self).surveying == old(self).surveying,
            final(self).refused == old(self).refused,
    {
        self.pass = self.pass.wrapping_add(1);
    }
}

/// A survey gives the tuner back: wherever it has walked to, leaving the section
/// goes back to where the survey found the radio, and locking stays.
pub proof fn law_survey_gives_the_tuner_back(net: NetState, found_hz: u64, tuned_hz: u64)
    requires
        net.pre_survey_hz == Some(found_hz),
    ensures
        net.mode == NetMode::Survey ==> net.exit_from(tuned_hz).tune_hz == found_hz
            && !net.exit_from(tuned_hz).locked,
        net.mode == NetMode::Lock ==> net.exit_from(tuned_hz).tune_hz == tuned_hz
            && net.exit_from(tuned_hz).locked,
{
}

/// The radio sees what its sample rate and its filter both let through.
pub proof fn law_the_view_is_the_narrower_of_rate_and_filter(radio: RadioState)
    ensures
        view_of(radio) <= radio.sample_rate_hz,
        radio.bb_filter_hz > 0 ==> view_of(radio) <= radio.bb_filter_hz,
        view_of(radio) == radio.sample_rate_hz || (radio.bb_filter_hz > 0 && view_of(radio)
            == radio.bb_filter_hz),
{
}

/// As many cells are counted as are seen.
pub proof fn law_every_cell_that_is_seen_is_counted(seen: Seq<bool>)
    ensures
        seen_count(seen) == seen.filter(|b: bool| b).len(),
    decreases seen.len(),
{
    reveal(Seq::filter);
    if seen.len() > 0 {
        law_every_cell_that_is_seen_is_counted(seen.drop_last());
    }
}

/// A survey from its start to its end: it notes where the radio was without moving it,
/// and wherever the radio was walked to meanwhile, it goes back there. Nothing but the
/// frequency of the radio changes.
pub proof fn law_a_survey_ends_where_it_began(
    before: SurveyTask,
    net: NetState,
    radio: RadioState,
    during: SurveyTask,
    net_during: NetState,
    radio_during: RadioState,
    first: (SurveyMove, Option<SurveyNote>),
    walked: RadioState,
    after: SurveyTask,
    net_after: NetState,
    radio_after: RadioState,
    second: (SurveyMove, Option<SurveyNote>),
)
    requires
        !before.surveying,
        topped(before, true, net, radio, during, net_during, radio_during, first),
        first.0 is Pass,
        topped(during, false, net_during, walked, after, net_after, radio_after, second),
    ensures
        radio.hw_streaming && net.mode == NetMode::Survey,
        radio_during == radio,
        net_during.pre_survey_hz == Some(radio.frequency),
        during.surveying && !after.surveying,
        radio_after.frequency == radio.frequency,
        radio_after == (RadioState { frequency: radio.frequency, ..walked }),
        net_after.pre_survey_hz is None,
        second.0 matches SurveyMove::Restore { tune_hz, sleep_ms } && tune_hz == radio.frequency
            && sleep_ms == 100,
        second.1 == Some(SurveyNote::Back(radio.frequency)),
{
}

/// While a survey goes on, each pass leaves noted where the radio was at its start, and
/// says nothing more.
pub proof fn law_a_pass_does_not_forget_the_start(
    before: SurveyTask,
    net: NetState,
    radio: RadioState,
    after: SurveyTask,
    net_after: NetState,
    radio_after: RadioState,
    r: (SurveyMove, Option<SurveyNote>),
)
    requires
        before.surveying,
        wanted(true, net, radio),
        topped(before, true, net, radio, after, net_after, radio_after, r),
    ensures
        net_after.pre_survey_hz == net.pre_survey_hz,
        radio_after == radio,
        after.surveying,
        r.0 is Pass ==> r.1 is None,
{
}

/// A radio that cannot survey is told so once: the next refusal says nothing, and no
/// position is visited.
pub proof fn law_a_refusal_is_told_once(
    before: SurveyTask,
    net: NetState,
    radio: RadioState,
    between: SurveyTask,
    net_between: NetState,
    radio_between: RadioState,
    first: (SurveyMove, Option<SurveyNote>),
    after: SurveyTask,
    net_after: NetState,
    radio_after: RadioState,
    second: (SurveyMove, Option<SurveyNote>),
)
    requires
        wanted(true, net, radio),
        topped(before, true, net, radio, between, net_between, radio_between, first),
        !(first.0 is Pass),
        topped(between, true, net_between, radio_between, after, net_after, radio_after, second),
        !(second.0 is Pass),
    ensures
        forall|c: int| 0 <= c < occupancy::CELLS ==> !(#[trigger] between.plan.sees(c)),
        !before.refused ==> first.1 == Some(SurveyNote::TooNarrow(view_of(radio))),
        second.1 is None,
        net_after == net && radio_after == radio,
        first.0 == SurveyMove::Sleep(100),
{
    let seen = view_over_band(between.plan);
    assert forall|c: int| 0 <= c < occupancy::CELLS implies !(#[trigger] between.plan.sees(c)) by {
        lemma_none_seen(seen, c);
        assert(seen[c] == between.plan.sees(c));
    }
}

/// Where none is counted none is seen.
proof fn lemma_none_seen(seen: Seq<bool>, c: int)
    requires
        seen_count(seen) == 0,
        0 <= c < seen.len(),
    ensures
        !seen[c],
    decreases seen.len(),
{
    if c < seen.len() - 1 {
        lemma_none_seen(seen.drop_last(), c);
    }
}

/// A survey that starts tells how many positions it visits, and that each of them takes
/// an eighth of a second.
pub proof fn law_a_start_tells_its_pass(
    before: SurveyTask,
    net: NetState,
    radio: RadioState,
    after: SurveyTask,
    net_after: NetState,
    radio_after: RadioState,
    r: (SurveyMove, Option<SurveyNote>),
)
    requires
        !before.surveying,
        wanted(true, net, radio),
        topped(before, true, net, radio, after, net_after, radio_after, r),
        r.0 is Pass,
        after.plan.hops@.len() <= 0xffff_ffff,
    ensures
        r.1 matches Some(SurveyNote::Started { positions, view_hz, pass_ms, covered }) && {
            &&& positions == after.plan.hops@.len()
            &&& 8 * pass_ms == 1_000 * positions
            &&& view_hz == view_of(radio)
            &&& 0 < covered <= occupancy::CELLS
            &&& covered == view_over_band(after.plan).filter(|b: bool| b).len()
        },
{
    let seen = view_over_band(after.plan);
    law_every_cell_that_is_seen_is_counted(seen);
    lemma_count_fits(seen);
}

/// No more cells are counted than there are.
proof fn lemma_count_fits(seen: Seq<bool>)
    ensures
        seen_count(seen) <= seen.len(),
    decreases seen.len(),
{
    if seen.len() > 0 {
        lemma_count_fits(seen.drop_last());
    }
}

/// A visit tunes to the position it is for and changes nothing else of the radio; past the
/// last position, or once the survey is no longer wanted, it leaves the radio alone.
pub proof fn law_a_visit_tunes_to_its_position(
    plan: Plan,
    index: usize,
    section_open: bool,
    net: NetState,
    before: RadioState,
    after: RadioState,
    r: Option<u64>,
)
    requires
        visited(plan, index, section_open, net, before, after, r),
    ensures
        r matches Some(hz) ==> after.frequency == hz && plan.hops@.contains(hz) && section_open
            && net.mode == NetMode::Survey,
        r matches Some(hz) ==> plan.hops@[index as int] == hz,
        section_open && net.mode == NetMode::Survey && index < plan.hops@.len() ==> r is Some,
        r is None ==> after == before,
        after.sample_rate_hz == before.sample_rate_hz && after.rx_enabled == before.rx_enabled,
{
}

} // verus!
