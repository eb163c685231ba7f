//! A session from the first key to the saved configuration.

use crate::event::DeviceOptionRequest;
use crate::input::plots;
use crate::input::plots::{InputMode, SpectrumState, SpectrumStyle};
use crate::signal::fft::publish::SpectrumMarker;
use crate::state::net::NetState;
use crate::state::sweep::{SweepConfig, SweepState};
use crate::state::waterfall::{WaterfallPalette, WaterfallState};
use crate::state::RadioState;
use vstd::prelude::*;

verus! {

/// The shortest time between two drawings that keys cause.
pub const FRAME_MS: u64 = 33;

/// What a key asked of the session.
#[derive(Debug, PartialEq, Eq)]
pub enum KeyAction {
    Continue,
    Quit,
    ApplyDeviceOption(DeviceOptionRequest),
}

/// What the session does next.
#[derive(Debug, PartialEq, Eq)]
pub enum SessionMove {
    /// Go on, and draw where asked.
    Stay { redraw: bool },
    /// Change a device setting, and draw where asked.
    Start { request: DeviceOptionRequest, redraw: bool },
    /// Give everything back and leave.
    Finish,
}

/// A running session.
#[derive(Clone, Copy, Debug, PartialEq, Eq, Structural)]
pub struct Session {
    /// The user asked to quit while a device setting was still changing.
    pub quit_requested: bool,
    pub last_draw_ms: u64,
}

impl Session {
    pub fn new(now_ms: u64) -> (s: Self)
        ensures
            s == (Session { quit_requested: false, last_draw_ms: now_ms }),
    {
        Session { quit_requested: false, last_draw_ms: now_ms }
    }

    /// Whether keys still count.
    pub fn takes_keys(&self) -> (r: bool)
        ensures
            r == !self.quit_requested,
    {
        !self.quit_requested
    }

    /// Whether a key is followed by a drawing.
    pub open spec fn draw_due(self, now_ms: u64) -> bool {
        now_ms - self.last_draw_ms >= FRAME_MS
    }

    /// Takes what a key asked for. Quitting waits for a device setting that is
    /// still changing; after that no key counts.
    pub fn on_key(&mut self, action: KeyAction, pending: bool, now_ms: u64) -> (r: SessionMove)
        ensures
            key_taken(*old(self), action, pending, now_ms, *final(self), r),
    {
        if self.quit_requested {
            return SessionMove::Stay { redraw: false };
        }
        let redraw = now_ms >= self.last_draw_ms && now_ms - self.last_draw_ms >= FRAME_MS;
        match action {
            KeyAction::Quit => {
                if pending {
                    self.quit_requested = true;
                    SessionMove::Stay { redraw }
                } else {
                    SessionMove::Finish
                }
            },
            KeyAction::Continue => SessionMove::Stay { redraw },
            KeyAction::ApplyDeviceOption(request) => SessionMove::Start { request, redraw },
        }
    }

    /// A tick draws.
    pub fn on_tick(&self) -> (r: SessionMove)
        ensures
            r == (SessionMove::Stay { redraw: true }),
    {
        SessionMove::Stay { redraw: true }
    }

    /// What a session does once a device setting has changed, or has not.
    pub open spec fn completed(self, pending: bool) -> SessionMove {
        if self.quit_requested && !pending {
            SessionMove::Finish
        } else {
            (SessionMove::Stay { redraw: true })
        }
    }

    /// A device setting has changed, or has not. A session that waited for it
    /// ends, unless another one is pending.
    pub fn on_option_complete(&self, pending: bool) -> (r: SessionMove)
        ensures
            r == self.completed(pending),
    {
        if self.quit_requested && !pending {
            SessionMove::Finish
        } else {
            SessionMove::Stay { redraw: true }
        }
    }

    /// Notes that the screen was drawn.
    pub fn drawn(&mut self, now_ms: u64)
        ensures
            *final(self) == (Session { last_draw_ms: now_ms, ..*old(self) }),
    {
        self.last_draw_ms = now_ms;
    }
}

/// What a key does to a session, and what the session does next.
pub open spec fn key_taken(
    before: Session,
    action: KeyAction,
    pending: bool,
    now_ms: u64,
    after: Session,
    r: SessionMove,
) -> bool {
    &&& after.last_draw_ms == before.last_draw_ms
    &&& if before.quit_requested {
        after.quit_requested && r == (SessionMove::Stay { redraw: false })
    } else {
        let redraw = before.draw_due(now_ms);
        match action {
            KeyAction::Quit => {
                &&& after.quit_requested == pending
                &&& r == if pending {
                    (SessionMove::Stay { redraw })
                } else {
                    SessionMove::Finish
                }
            },
            KeyAction::Continue => {
                &&& !after.quit_requested
                &&& r == (SessionMove::Stay { redraw })
            },
            KeyAction::ApplyDeviceOption(request) => {
                &&& !after.quit_requested
                &&& r == (SessionMove::Start { request, redraw })
            },
        }
    }
}

/// A session ends by a key exactly where the key quits and nothing is pending; a quit
/// that has to wait is remembered, and after it no key counts.
pub proof fn law_quitting_waits_for_the_device(
    before: Session,
    first: KeyAction,
    pending: bool,
    then_ms: u64,
    between: Session,
    a: SessionMove,
    second: KeyAction,
    still_pending: bool,
    now_ms: u64,
    after: Session,
    b: SessionMove,
)
    requires
        !before.quit_requested,
        key_taken(before, first, pending, then_ms, between, a),
        key_taken(between, second, still_pending, now_ms, after, b),
    ensures
        a is Finish <==> first is Quit && !pending,
        between.quit_requested <==> first is Quit && pending,
        first is Quit && pending ==> b == (SessionMove::Stay { redraw: false }) && after == between,
        a matches SessionMove::Start { request, .. } ==> first == KeyAction::ApplyDeviceOption(
            request,
        ),
{
}

/// Two drawings that keys cause are a frame apart, and a key that comes a frame after
/// the last drawing causes one unless the session ends.
pub proof fn law_keys_draw_a_frame_apart(
    before: Session,
    action: KeyAction,
    pending: bool,
    now_ms: u64,
    after: Session,
    r: SessionMove,
)
    requires
        key_taken(before, action, pending, now_ms, after, r),
        !before.quit_requested,
    ensures
        r == (SessionMove::Stay { redraw: true }) ==> before.last_draw_ms + 33 <= now_ms,
        before.last_draw_ms + 33 <= now_ms && r is Stay ==> r == (SessionMove::Stay { redraw: true }),
        r matches SessionMove::Start { redraw, .. } ==> (redraw <==> before.last_draw_ms + 33 <= now_ms),
        after.last_draw_ms == before.last_draw_ms,
{
}

/// A measurement that moved a gain stage, and what the stage was set to before.
#[derive(Clone, Copy, Debug, PartialEq, Eq, Structural)]
pub struct NoiseSweepRestore {
    pub stage: usize,
    pub gain_db: u32,
}

/// What is put back on the radio.
#[derive(Clone, Copy, Debug, PartialEq, Eq)]
pub struct Teardown {
    /// The stage to set, and its gain.
    pub stage: Option<(usize, u32)>,
    /// Where to tune.
    pub tune_hz: Option<u64>,
}

/// The stage to set and the gains once a measurement has given its stage back.
pub open spec fn stage_restored(
    sweep: Option<NoiseSweepRestore>,
    gains: Seq<u32>,
    stages: usize,
    has_device: bool,
) -> (Option<(usize, u32)>, Seq<u32>) {
    match sweep {
        Some(s) if has_device && s.stage < stages => (
            Some((s.stage, s.gain_db)),
            if s.stage < gains.len() {
                gains.update(s.stage as int, s.gain_db)
            } else {
                gains
            },
        ),
        _ => (None, gains),
    }
}

/// Puts the swept stage back: a measurement parks it at each of its settings in
/// turn, and the last one is not the user's. The measurement is over either way.
pub fn restore_noise_sweep(
    sweep: &mut Option<NoiseSweepRestore>,
    gains: &mut Vec<u32>,
    stages: usize,
    has_device: bool,
) -> (r: Option<(usize, u32)>)
    ensures
        *final(sweep) is None,
        (r, final(gains)@) == stage_restored(*old(sweep), old(gains)@, stages, has_device),
{
    let restore = *sweep;
    *sweep = None;
    match restore {
        Some(s) => {
            if !has_device || s.stage >= stages {
                return None;
            }
            if s.stage < gains.len() {
                gains.set(s.stage, s.gain_db);
            }
            Some((s.stage, s.gain_db))
        },
        None => None,
    }
}

/// Where the radio belongs once every scan is over: first the sweep gives the
/// tuner back, then the survey.
pub open spec fn home_of(sweep: SweepState, net: NetState, tuned_hz: u64) -> u64 {
    net.exit_from(sweep.exit_from(tuned_hz).tune_hz).tune_hz
}

/// Ends every scan and puts the frequency back. The radio is tuned only where it
/// was moved.
pub fn restore_sweep_tuning(
    sweep: &mut SweepState,
    net: &mut NetState,
    radio: &mut RadioState,
    has_device: bool,
) -> (r: Option<u64>)
    ensures
        *final(sweep) == old(sweep).ended(),
        *final(net) == (NetState { pre_survey_hz: None, ..*old(net) }),
        ({
            let home = home_of(*old(sweep), *old(net), old(radio).frequency);
            &&& *final(radio) == (RadioState { frequency: home, ..*old(radio) })
            &&& r == if home != old(radio).frequency && has_device {
                Some(home)
            } else {
                None
            }
        }),
{
    let was: u64 = radio.frequency;
    let after_sweep: u64 = sweep.end(was).tune_hz;
    let home: u64 = net.end(after_sweep).tune_hz;
    radio.frequency = home;
    if home != was && has_device {
        Some(home)
    } else {
        None
    }
}

/// What a session carries from the configuration it was started with to the one
/// it leaves: a file that is written anew loses whatever is not carried.
pub struct Deck {
    pub amp_enabled: bool,
    pub recall_hz: Vec<Option<u64>>,
    pub active_preset: String,
    /// The theme in use; the rest of its block is as it was loaded.
    pub theme_base: String,
    pub theme_overrides: Vec<(String, String)>,
    /// The presets the user defined, by name, as they were loaded.
    pub presets: Vec<(String, String)>,
}

/// What a session leaves behind.
pub struct SavedConfig {
    pub frequency_hz: u64,
    pub sample_rate_hz: u64,
    pub gains: Vec<u32>,
    pub waterfall_max_rows: usize,
    pub waterfall_palette: WaterfallPalette,
    pub spectrum_style: SpectrumStyle,
    pub markers: Vec<SpectrumMarker>,
    pub sweep: SweepConfig,
    pub deck: Deck,
}

/// Whether two markers show the same mark.
pub open spec fn same_marker(a: SpectrumMarker, b: SpectrumMarker) -> bool {
    &&& a.freq_hz == b.freq_hz
    &&& a.label@ == b.label@
    &&& a.channel_bw_hz == b.channel_bw_hz
    &&& a.measured_bw_hz == b.measured_bw_hz
}

/// A copy of the markers.
fn copied_markers(markers: &Vec<SpectrumMarker>) -> (out: Vec<SpectrumMarker>)
    ensures
        out@.len() == markers@.len(),
        forall|i: int| 0 <= i < out@.len() ==> same_marker(#[trigger] out@[i], markers@[i]),
{
    let mut out: Vec<SpectrumMarker> = Vec::new();
    let mut i: usize = 0;
    while i < markers.len()
        invariant
            i <= markers@.len(),
            out@.len() == i,
            forall|k: int| 0 <= k < i ==> same_marker(#[trigger] out@[k], markers@[k]),
        decreases markers@.len() - i,
    {
        let m = &markers[i];
        out.push(
            SpectrumMarker {
                freq_hz: m.freq_hz,
                label: plots::copied_text(&m.label),
                channel_bw_hz: m.channel_bw_hz,
                measured_bw_hz: m.measured_bw_hz,
            },
        );
        i += 1;
    }
    out
}

/// A copy of the gains.
fn copied_gains(gains: &Vec<u32>) -> (out: Vec<u32>)
    ensures
        out@ == gains@,
{
    let mut out: Vec<u32> = Vec::new();
    let mut i: usize = 0;
    while i < gains.len()
        invariant
            i <= gains@.len(),
            out@ == gains@.take(i as int),
        decreases gains@.len() - i,
    {
        assert(gains@.take(i + 1) == gains@.take(i as int).push(gains@[i as int]));
        out.push(gains[i]);
        i += 1;
    }
    assert(gains@.take(i as int) == gains@);
    out
}

/// Whether a configuration records the state.
pub open spec fn records(
    c: SavedConfig,
    radio: RadioState,
    gains: Seq<u32>,
    view: WaterfallState,
    spectrum: SpectrumState,
    sweep: SweepState,
    deck: Deck,
) -> bool {
    &&& c.frequency_hz == radio.frequency
    &&& c.sample_rate_hz == radio.sample_rate_hz
    &&& c.gains@ == gains
    &&& c.waterfall_max_rows == view.buffer.max_rows
    &&& c.waterfall_palette == view.palette
    &&& c.spectrum_style == spectrum.style
    &&& c.markers@.len() == spectrum.markers@.len()
    &&& forall|i: int|
        0 <= i < spectrum.markers@.len() ==> same_marker(#[trigger] c.markers@[i], spectrum.markers@[i])
    &&& c.sweep == sweep.config
    &&& c.deck == deck
}

/// What is saved, where there is a device and a place to save it.
pub fn save_config(
    radio: &RadioState,
    gains: &Vec<u32>,
    view: &WaterfallState,
    spectrum: &SpectrumState,
    sweep: &SweepState,
    deck: Deck,
    has_device: bool,
    has_path: bool,
) -> (r: Option<SavedConfig>)
    ensures
        match r {
            Some(c) => has_device && has_path && records(
                c,
                *radio,
                gains@,
                *view,
                *spectrum,
                *sweep,
                deck,
            ),
            None => !(has_device && has_path),
        },
{
    if !has_device || !has_path {
        return None;
    }
    Some(
        SavedConfig {
            frequency_hz: radio.frequency,
            sample_rate_hz: radio.sample_rate_hz,
            gains: copied_gains(gains),
            waterfall_max_rows: view.buffer.max_rows,
            waterfall_palette: view.palette,
            spectrum_style: spectrum.style,
            markers: copied_markers(&spectrum.markers),
            sweep: sweep.config,
            deck,
        },
    )
}

/// The state that is put back and saved.
pub struct Closing {
    pub noise_sweep: Option<NoiseSweepRestore>,
    pub gains: Vec<u32>,
    pub sweep: SweepState,
    pub net: NetState,
    pub radio: RadioState,
}

/// Ends a session: the gain goes back, then the tuner, and only then is the
/// configuration taken.
pub fn finish_session(
    state: &mut Closing,
    view: &WaterfallState,
    spectrum: &SpectrumState,
    deck: Deck,
    stages: usize,
    has_device: bool,
    has_path: bool,
) -> (r: (Teardown, Option<SavedConfig>))
    ensures
        final(state).noise_sweep is None,
        final(state).radio == (RadioState {
            frequency: home_of(old(state).sweep, old(state).net, old(state).radio.frequency),
            ..old(state).radio
        }),
        r.0.tune_hz == if final(state).radio.frequency != old(state).radio.frequency && has_device {
            Some(final(state).radio.frequency)
        } else {
            None
        },
        (r.0.stage, final(state).gains@) == stage_restored(
            old(state).noise_sweep,
            old(state).gains@,
            stages,
            has_device,
        ),
        match r.1 {
            Some(c) => has_device && has_path && records(
                c,
                final(state).radio,
                final(state).gains@,
                *view,
                *spectrum,
                final(state).sweep,
                deck,
            ),
            None => !(has_device && has_path),
        },
        final(state).sweep == old(state).sweep.ended(),
        final(state).net == (NetState { pre_survey_hz: None, ..old(state).net }),
{
    let stage = restore_noise_sweep(&mut state.noise_sweep, &mut state.gains, stages, has_device);
    let tune_hz = restore_sweep_tuning(
        &mut state.sweep,
        &mut state.net,
        &mut state.radio,
        has_device,
    );
    let saved = save_config(
        &state.radio,
        &state.gains,
        view,
        spectrum,
        &state.sweep,
        deck,
        has_device,
        has_path,
    );
    (Teardown { stage, tune_hz }, saved)
}

/// A session that quits in the middle of a scan saves where the user was tuned,
/// wherever the scan had got to. A lock keeps the radio where it is, so a survey
/// gives it back only while it is one; a sweep gives it back in either mode.
pub proof fn law_a_scan_position_is_never_saved(
    sweep: SweepState,
    net: NetState,
    user_hz: u64,
    parked_hz: u64,
)
    requires
        sweep.pending_tune is None,
        ({
            let locked = net.mode == crate::state::net::NetMode::Lock;
            ||| sweep.pre_sweep_hz == Some(user_hz) && (locked || net.pre_survey_hz is None)
            ||| !locked && net.pre_survey_hz == Some(user_hz)
        }),
    ensures
        home_of(sweep, net, parked_hz) == user_hz,
{
}

/// Without a scan the radio stays where it is.
pub proof fn law_without_a_scan_nothing_moves(sweep: SweepState, net: NetState, hz: u64)
    requires
        sweep.pending_tune is None,
        sweep.pre_sweep_hz is None,
        net.pre_survey_hz is None,
    ensures
        home_of(sweep, net, hz) == hz,
{
}

/// What is on screen.
#[derive(Clone, Copy, Debug, PartialEq, Eq, Structural)]
pub struct Visible {
    pub sweep_panel: bool,
    pub micro_sweep_panel: bool,
    pub fm_demod: bool,
    pub command_rail_focused: bool,
}

/// What a drawing looks like.
#[derive(Clone, Copy, Debug, PartialEq, Eq)]
pub struct Picture {
    pub sweep_active: bool,
    pub demod_enabled: bool,
    pub hide_footer: bool,
    pub steeled: bool,
    pub log_overlay: bool,
    /// The size of the menu, where there is one.
    pub menu_size: Option<(u16, u16)>,
    /// Whether the menu stands over the deck.
    pub menu_floats: bool,
    pub waiting_line: bool,
    /// Whether the deck has been on screen.
    pub deck_shown: bool,
}

/// What the user has asked to see.
#[derive(Clone, Copy, Debug, PartialEq, Eq, Structural)]
pub struct Wishes {
    pub demod_on: bool,
    pub show_footer: bool,
    pub input_mode: InputMode,
    pub lab_mode: bool,
    pub log_overlay: bool,
    pub menu_open: bool,
    pub waiting_to_quit: bool,
}

/// Eight tenths of a length, and at least one cell.
pub open spec fn eight_tenths(n: int) -> int {
    if n * 8 / 10 < 1 {
        1
    } else {
        n * 8 / 10
    }
}

/// What a drawing looks like.
pub open spec fn picture_of(
    visible: Visible,
    wishes: Wishes,
    width: u16,
    height: u16,
    deck_shown: bool,
) -> Picture {
    Picture {
        sweep_active: visible.sweep_panel || visible.micro_sweep_panel,
        demod_enabled: visible.fm_demod && wishes.demod_on,
        hide_footer: !wishes.show_footer && wishes.input_mode == InputMode::Normal,
        steeled: wishes.lab_mode,
        log_overlay: wishes.log_overlay && visible.command_rail_focused,
        menu_size: if !wishes.menu_open {
            None
        } else if deck_shown {
            Some((eight_tenths(width as int) as u16, eight_tenths(height as int) as u16))
        } else {
            Some((width, height))
        },
        menu_floats: wishes.menu_open && deck_shown,
        waiting_line: wishes.waiting_to_quit,
        deck_shown: deck_shown || !wishes.menu_open,
    }
}

/// Decides what a drawing looks like. The menu owns the whole terminal until the
/// deck has been seen once; after that it floats over the deck. What listens to a
/// panel runs while the panel is on screen.
pub fn draw(visible: Visible, wishes: Wishes, width: u16, height: u16, deck_shown: bool) -> (p: Picture)
    requires
        wishes.menu_open && deck_shown ==> 1 <= width <= 8_191 && 1 <= height <= 8_191,
    ensures
        p == picture_of(visible, wishes, width, height, deck_shown),
{
    Picture {
        sweep_active: visible.sweep_panel || visible.micro_sweep_panel,
        demod_enabled: visible.fm_demod && wishes.demod_on,
        hide_footer: !wishes.show_footer && wishes.input_mode == InputMode::Normal,
        steeled: wishes.lab_mode,
        log_overlay: wishes.log_overlay && visible.command_rail_focused,
        menu_size: if !wishes.menu_open {
            None
        } else if deck_shown {
            let wide: u16 = width * 8 / 10;
            let high: u16 = height * 8 / 10;
            Some(
                (
                    if wide < 1 {
                        1
                    } else {
                        wide
                    },
                    if high < 1 {
                        1
                    } else {
                        high
                    },
                ),
            )
        } else {
            Some((width, height))
        },
        menu_floats: wishes.menu_open && deck_shown,
        waiting_line: wishes.waiting_to_quit,
        deck_shown: deck_shown || !wishes.menu_open,
    }
}

/// What listens to a panel runs only while the panel is on screen, and a deck that has
/// been seen stays seen.
pub proof fn law_nothing_runs_unseen(
    visible: Visible,
    wishes: Wishes,
    width: u16,
    height: u16,
    deck_shown: bool,
)
    ensures
        ({
            let p = picture_of(visible, wishes, width, height, deck_shown);
            &&& p.sweep_active ==> visible.sweep_panel || visible.micro_sweep_panel
            &&& visible.sweep_panel ==> p.sweep_active
            &&& visible.micro_sweep_panel ==> p.sweep_active
            &&& p.demod_enabled ==> visible.fm_demod && wishes.demod_on
            &&& !p.demod_enabled ==> !visible.fm_demod || !wishes.demod_on
            &&& p.log_overlay ==> visible.command_rail_focused && wishes.log_overlay
            &&& wishes.input_mode != InputMode::Normal ==> !p.hide_footer
            &&& wishes.show_footer ==> !p.hide_footer
            &&& deck_shown ==> p.deck_shown
            &&& !p.deck_shown ==> wishes.menu_open
            &&& p.menu_size is Some <==> wishes.menu_open
            &&& p.menu_floats ==> p.menu_size is Some && p.deck_shown
        }),
{
}

/// A menu that floats takes eight tenths of either side, in whole cells and at least
/// one; before the deck was seen it takes everything.
pub proof fn law_a_floating_menu_takes_eight_tenths(
    visible: Visible,
    wishes: Wishes,
    width: u16,
    height: u16,
    deck_shown: bool,
)
    requires
        wishes.menu_open,
        1 <= width <= 8_191,
        1 <= height <= 8_191,
    ensures
        picture_of(visible, wishes, width, height, deck_shown).menu_size matches Some(size) && {
            &&& 1 <= size.0 <= width
            &&& 1 <= size.1 <= height
            &&& !deck_shown ==> size == (width, height)
            &&& deck_shown && width > 1 ==> 10 * size.0 <= 8 * width < 10 * size.0 + 10
            &&& deck_shown && height > 1 ==> 10 * size.1 <= 8 * height < 10 * size.1 + 10
        },
{
}

/// Two sessions that leave the same configuration were tuned alike, to the same
/// markers, gains and sweep.
pub proof fn law_a_configuration_tells_the_session_it_came_from(
    c: SavedConfig,
    radio: RadioState,
    gains: Seq<u32>,
    view: WaterfallState,
    spectrum: SpectrumState,
    sweep: SweepState,
    deck: Deck,
    i: int,
)
    requires
        records(c, radio, gains, view, spectrum, sweep, deck),
        0 <= i < spectrum.markers@.len(),
    ensures
        radio.frequency == c.frequency_hz,
        radio.sample_rate_hz == c.sample_rate_hz,
        gains == c.gains@,
        view.buffer.max_rows == c.waterfall_max_rows,
        view.palette == c.waterfall_palette,
        spectrum.style == c.spectrum_style,
        c.markers@.len() == spectrum.markers@.len(),
        c.markers@[i].freq_hz == spectrum.markers@[i].freq_hz,
        c.markers@[i].label@ == spectrum.markers@[i].label@,
        c.markers@[i].channel_bw_hz == spectrum.markers@[i].channel_bw_hz,
        sweep.config == c.sweep,
        deck == c.deck,
{
    assert(same_marker(c.markers@[i], spectrum.markers@[i]));
}

/// A quit that had to wait ends the session once nothing is pending any more, and a
/// session that was not asked to quit goes on.
pub proof fn law_a_waiting_quit_ends_the_session(
    before: Session,
    action: KeyAction,
    now_ms: u64,
    after: Session,
    r: SessionMove,
    still_pending: bool,
)
    requires
        !before.quit_requested,
        key_taken(before, action, true, now_ms, after, r),
    ensures
        !(r is Finish),
        action is Quit ==> (after.completed(still_pending) is Finish <==> !still_pending),
        !(action is Quit) ==> after.completed(still_pending) == (SessionMove::Stay { redraw: true }),
{
}

/// A measurement gives its stage back as it found it, at the device and in what is
/// saved, and leaves every other stage alone.
pub proof fn law_a_measurement_gives_its_stage_back(
    sweep: NoiseSweepRestore,
    gains: Seq<u32>,
    stages: usize,
    i: int,
)
    requires
        sweep.stage < stages,
        sweep.stage < gains.len(),
        0 <= i < gains.len(),
    ensures
        ({
            let (set, after) = stage_restored(Some(sweep), gains, stages, true);
            &&& set == Some((sweep.stage, sweep.gain_db))
            &&& after.len() == gains.len()
            &&& after[sweep.stage as int] == sweep.gain_db
            &&& i != sweep.stage ==> after[i] == gains[i]
            &&& stage_restored(Some(sweep), gains, stages, false) == (None::<(usize, u32)>, gains)
            &&& stage_restored(None, gains, stages, true) == (None::<(usize, u32)>, gains)
        }),
{
}

} // verus!
