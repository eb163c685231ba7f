//! Sweeps that the device itself carries out.
//!
//! The controller is told the time and the state of the sweep, and answers with
//! at most one call to make on the device. The result of that call comes back
//! before the next update. An update reads once, when it begins, what time it is and
//! whether and what to sweep: what changes while a call is under way is for the next.

use crate::hardware::DirectSweepConfig;
use crate::state::sweep::{SweepExit, SweepState};
use crate::state::RadioState;
use crate::text;
use crate::units;
use vstd::prelude::*;

verus! {

/// How long a failed call is left alone.
pub const DIRECT_SWEEP_RETRY_MS: u64 = 1_000;

/// A line for the log.
#[derive(Debug)]
pub enum SweepNote {
    Started { start_hz: u64, stop_hz: u64 },
    Failed(String),
    RestoreFailed(String),
    Stopped,
    Tuned(u64),
}

impl SweepNote {
    pub open spec fn line(self) -> Seq<char> {
        match self {
            SweepNote::Started { start_hz, stop_hz } => "Sweep started: "@ + units::mhz_tenths(
                start_hz,
            ) + "\u{2013}"@ + units::mhz_tenths(stop_hz) + " MHz"@,
            SweepNote::Failed(message) => "Sweep error: "@ + message@,
            SweepNote::RestoreFailed(message) => "Sweep restore error: "@ + message@,
            SweepNote::Stopped => "Sweep stopped"@,
            SweepNote::Tuned(hz) => "Tuned to "@ + units::mhz_thousandths(hz)
                + " MHz from sweep"@,
        }
    }

    /// The line as text.
    pub fn text(&self) -> (out: String)
        ensures
            out@ == self.line(),
    {
        let mut t: Vec<char> = Vec::new();
        match self {
            SweepNote::Started { start_hz, stop_hz } => {
                text::push_str(&mut t, "Sweep started: ");
                units::push_mhz_tenths(&mut t, *start_hz);
                text::push_str(&mut t, "\u{2013}");
                units::push_mhz_tenths(&mut t, *stop_hz);
                text::push_str(&mut t, " MHz");
            },
            SweepNote::Failed(message) => {
                text::push_str(&mut t, "Sweep error: ");
                text::push_str(&mut t, message.as_str());
            },
            SweepNote::RestoreFailed(message) => {
                text::push_str(&mut t, "Sweep restore error: ");
                text::push_str(&mut t, message.as_str());
            },
            SweepNote::Stopped => text::push_str(&mut t, "Sweep stopped"),
            SweepNote::Tuned(hz) => {
                text::push_str(&mut t, "Tuned to ");
                units::push_mhz_thousandths(&mut t, *hz);
                text::push_str(&mut t, " MHz from sweep");
            },
        }
        assert(t@ == self.line());
        text::from_chars(t.as_slice())
    }
}

/// A band that was asked for.
#[derive(Clone, Copy, Debug, PartialEq, Eq, Structural)]
pub struct SweepRequest {
    pub start_hz: u64,
    pub stop_hz: u64,
}

/// What an update reads when it begins: whether and what to sweep, and the time.
#[derive(Clone, Copy, Debug, PartialEq, Eq, Structural)]
pub struct Sample {
    pub active: bool,
    pub request: SweepRequest,
    pub now_ms: u64,
}

impl Sample {
    pub open spec fn read(s: SweepState, now_ms: u64) -> Sample {
        Sample {
            active: s.active,
            request: SweepRequest { start_hz: s.config.start_hz, stop_hz: s.config.stop_hz },
            now_ms,
        }
    }

    fn of(sweep: &SweepState, now_ms: u64) -> (u: Self)
        ensures
            u == Self::read(*sweep, now_ms),
    {
        Sample {
            active: sweep.active,
            request: SweepRequest {
                start_hz: sweep.config.start_hz,
                stop_hz: sweep.config.stop_hz,
            },
            now_ms,
        }
    }
}

/// A request the device refused.
pub struct FailedRequest {
    pub config: DirectSweepConfig,
    pub at_ms: u64,
    pub message: String,
}

/// An exit that has begun: the device stops sweeping, then the radio is tuned.
pub struct PendingExit {
    pub tune_hz: u64,
    pub jumped: bool,
    pub direct_disabled: bool,
    pub frequency_set: bool,
    pub retry_at_ms: u64,
    pub last_error: Option<String>,
}

/// A call to make on the device.
#[derive(Clone, Copy, Debug, PartialEq, Eq, Structural)]
pub enum DeviceCall {
    SetDirectSweep(Option<DirectSweepConfig>),
    SetFrequency(u64),
}

/// What a step asks for: at most one device call, and lines for the log.
pub struct Outcome {
    pub call: Option<DeviceCall>,
    pub notes: Vec<SweepNote>,
}

/// Which call's result is outstanding, and what the update that made it had read.
#[derive(Clone, Copy, Debug, PartialEq, Eq, Structural)]
pub enum Awaiting {
    Nothing,
    Disable(Sample),
    Retune(Sample),
    Apply(DirectSweepConfig, Sample),
}

impl Awaiting {
    /// What the update that made the call had read.
    pub open spec fn sample(self) -> Sample
        recommends
            self != Awaiting::Nothing,
    {
        match self {
            Awaiting::Disable(u) => u,
            Awaiting::Retune(u) => u,
            Awaiting::Apply(_, u) => u,
            Awaiting::Nothing => arbitrary(),
        }
    }
}

/// The state of the controller.
pub struct DirectSweepController {
    pub was_active: bool,
    pub requested: Option<SweepRequest>,
    pub applied: Option<DirectSweepConfig>,
    pub failed: Option<FailedRequest>,
    pub request_generation: u64,
    pub saved_frequency: u64,
    pub saved_rx_enabled: bool,
    pub pending_exit: Option<PendingExit>,
    pub awaiting: Awaiting,
}

/// The controller, the sweep, the radio, the call and the notes after a step.
pub type StepResult = (
    DirectSweepController,
    SweepState,
    RadioState,
    Option<DeviceCall>,
    Seq<SweepNote>,
);

/// The generation after the present one.
pub open spec fn next_generation(g: u64) -> u64 {
    if g == u64::MAX {
        0
    } else {
        (g + 1) as u64
    }
}

impl DirectSweepController {
    /// A controller that has done nothing yet.
    pub fn new() -> (c: Self)
        ensures
            !c.was_active,
            c.requested is None,
            c.applied is None,
            c.failed is None,
            c.request_generation == 0,
            c.saved_frequency == 0,
            !c.saved_rx_enabled,
            c.pending_exit is None,
            c.awaiting == Awaiting::Nothing,
    {
        DirectSweepController {
            was_active: false,
            requested: None,
            applied: None,
            failed: None,
            request_generation: 0,
            saved_frequency: 0,
            saved_rx_enabled: false,
            pending_exit: None,
            awaiting: Awaiting::Nothing,
        }
    }

    /// The generation a request is made with: another band means another generation.
    pub open spec fn generation_for(self, request: SweepRequest, generation: u64) -> u64 {
        if self.requested is Some && self.requested != Some(request) && generation
            == self.request_generation {
            next_generation(generation)
        } else {
            generation
        }
    }

    /// The request to make.
    pub open spec fn config_for(self, request: SweepRequest, generation: u64) -> DirectSweepConfig {
        DirectSweepConfig {
            start_hz: request.start_hz,
            stop_hz: request.stop_hz,
            generation: self.generation_for(request, generation),
        }
    }

    /// Whether the request is made now: it is not in force, and the same request
    /// has not failed within the retry delay.
    pub open spec fn request_due(self, wanted: DirectSweepConfig, now_ms: u64) -> bool {
        &&& self.applied != Some(wanted)
        &&& match self.failed {
            Some(f) => f.config != wanted || now_ms - f.at_ms >= DIRECT_SWEEP_RETRY_MS,
            None => true,
        }
    }

    /// Asking the device for the band.
    pub open spec fn applying(self, u: Sample, s: SweepState, r: RadioState) -> StepResult {
        let wanted = self.config_for(u.request, s.generation);
        let c = DirectSweepController {
            requested: Some(u.request),
            request_generation: wanted.generation,
            ..self
        };
        let t = SweepState { generation: wanted.generation, ..s };
        if self.request_due(wanted, u.now_ms) {
            (
                DirectSweepController { awaiting: Awaiting::Apply(wanted, u), ..c },
                t,
                r,
                Some(DeviceCall::SetDirectSweep(Some(wanted))),
                Seq::empty(),
            )
        } else {
            (c, t, r, None, Seq::empty())
        }
    }

    /// The controller, the sweep and the radio at the start of a session.
    pub open spec fn entered(self, s: SweepState, r: RadioState) -> (
        DirectSweepController,
        SweepState,
        RadioState,
    ) {
        (
            DirectSweepController {
                was_active: true,
                saved_frequency: r.frequency,
                saved_rx_enabled: r.rx_enabled,
                ..self
            },
            SweepState {
                pre_sweep_hz: Some(r.frequency),
                cycle_count: 0,
                positions_done: 0,
                positions_total: 0,
                current_frame: None,
                generation: next_generation(s.generation),
                ..s
            },
            RadioState { rx_enabled: true, ..r },
        )
    }

    /// The controller and the sweep once an exit has begun.
    pub open spec fn leaving(self, s: SweepState, now_ms: u64) -> (
        DirectSweepController,
        SweepState,
    ) {
        let exit = s.exit_from(self.saved_frequency);
        (
            DirectSweepController {
                pending_exit: Some(
                    PendingExit {
                        tune_hz: exit.tune_hz,
                        jumped: exit.jumped,
                        direct_disabled: false,
                        frequency_set: false,
                        retry_at_ms: now_ms,
                        last_error: None,
                    },
                ),
                ..self
            },
            SweepState { generation: next_generation(s.generation), ..s.ended() },
        )
    }

    /// The controller and the radio once an exit is complete.
    pub open spec fn left(self, p: PendingExit, r: RadioState) -> (
        DirectSweepController,
        RadioState,
    ) {
        (
            DirectSweepController {
                pending_exit: None,
                was_active: false,
                requested: None,
                applied: None,
                failed: None,
                ..self
            },
            RadioState {
                frequency: p.tune_hz,
                rx_enabled: p.jumped || self.saved_rx_enabled,
                ..r
            },
        )
    }

    /// The note that an exit is complete.
    pub open spec fn exit_note(p: PendingExit) -> SweepNote {
        if p.jumped {
            SweepNote::Tuned(p.tune_hz)
        } else {
            SweepNote::Stopped
        }
    }

    /// Running, starting or ending a session, where no exit is pending.
    pub open spec fn session_step(self, u: Sample, s: SweepState, r: RadioState) -> StepResult {
        if u.active {
            if self.was_active {
                self.applying(u, s, r)
            } else {
                let (c, t, q) = self.entered(s, r);
                let (c2, t2, q2, call, _) = c.applying(u, t, q);
                (
                    c2,
                    t2,
                    q2,
                    call,
                    seq![
                        SweepNote::Started {
                            start_hz: u.request.start_hz,
                            stop_hz: u.request.stop_hz,
                        },
                    ],
                )
            }
        } else if self.was_active {
            let (c, t) = self.leaving(s, u.now_ms);
            (
                DirectSweepController { awaiting: Awaiting::Disable(u), ..c },
                t,
                r,
                Some(DeviceCall::SetDirectSweep(None)),
                Seq::empty(),
            )
        } else {
            (self, s, r, None, Seq::empty())
        }
    }

    /// Going on with a pending exit. Once it is complete a sweep begins only where the
    /// update was already asked for one when it began.
    pub open spec fn exit_step(
        self,
        p: PendingExit,
        u: Sample,
        s: SweepState,
        r: RadioState,
    ) -> StepResult {
        if u.now_ms < p.retry_at_ms {
            (self, s, r, None, Seq::empty())
        } else if !p.direct_disabled {
            (
                DirectSweepController { awaiting: Awaiting::Disable(u), ..self },
                s,
                r,
                Some(DeviceCall::SetDirectSweep(None)),
                Seq::empty(),
            )
        } else if !p.frequency_set {
            (
                DirectSweepController { awaiting: Awaiting::Retune(u), ..self },
                s,
                r,
                Some(DeviceCall::SetFrequency(p.tune_hz)),
                Seq::empty(),
            )
        } else {
            let (c, q) = self.left(p, r);
            let (c2, t2, q2, call, notes) = c.session_step(u, s, q);
            (c2, t2, q2, call, seq![Self::exit_note(p)] + notes)
        }
    }

    /// A step at a given time.
    pub open spec fn stepped(self, s: SweepState, r: RadioState, now_ms: u64) -> StepResult {
        let u = Sample::read(s, now_ms);
        match self.pending_exit {
            Some(p) => self.exit_step(p, u, s, r),
            None => self.session_step(u, s, r),
        }
    }

    /// The pending exit once a call of it failed.
    pub open spec fn exit_failed(p: PendingExit, message: String, now_ms: u64) -> PendingExit {
        PendingExit {
            retry_at_ms: (now_ms + DIRECT_SWEEP_RETRY_MS) as u64,
            last_error: Some(message),
            ..p
        }
    }

    /// The controller once the device has taken a band.
    pub open spec fn accepted(self, config: DirectSweepConfig) -> DirectSweepController {
        DirectSweepController {
            applied: Some(config),
            failed: None,
            awaiting: Awaiting::Nothing,
            ..self
        }
    }

    /// What follows when the device has carried out the call that is awaited.
    pub open spec fn answered(self, s: SweepState, r: RadioState) -> StepResult {
        match self.awaiting {
            Awaiting::Apply(config, _) => (self.accepted(config), s, r, None, Seq::empty()),
            _ => {
                let p = self.pending_exit->Some_0;
                let q = if self.awaiting is Disable {
                    PendingExit { direct_disabled: true, ..p }
                } else {
                    PendingExit { frequency_set: true, ..p }
                };
                let c = DirectSweepController {
                    pending_exit: Some(q),
                    awaiting: Awaiting::Nothing,
                    ..self
                };
                c.exit_step(q, self.awaiting.sample(), s, r)
            },
        }
    }

    /// The controller when the device has refused the call that is awaited.
    pub open spec fn refused(self, message: String) -> DirectSweepController {
        match self.awaiting {
            Awaiting::Apply(config, u) => DirectSweepController {
                failed: Some(FailedRequest { config, at_ms: u.now_ms, message }),
                awaiting: Awaiting::Nothing,
                ..self
            },
            _ => DirectSweepController {
                pending_exit: Some(
                    Self::exit_failed(
                        self.pending_exit->Some_0,
                        message,
                        self.awaiting.sample().now_ms,
                    ),
                ),
                awaiting: Awaiting::Nothing,
                ..self
            },
        }
    }

    /// What the controller awaits belongs to what it is doing.
    pub open spec fn valid(self) -> bool {
        match self.awaiting {
            Awaiting::Nothing => true,
            Awaiting::Disable(u) => self.pending_exit matches Some(p) && !p.direct_disabled
                && p.retry_at_ms <= u.now_ms,
            Awaiting::Retune(u) => self.pending_exit matches Some(p) && p.direct_disabled
                && !p.frequency_set && p.retry_at_ms <= u.now_ms,
            Awaiting::Apply(_, _) => self.pending_exit is None,
        }
    }

    /// Asks the device for the band, where that is due.
    fn apply_request(&mut self, u: Sample, sweep: &mut SweepState) -> (call: Option<DeviceCall>)
        requires
            old(self).pending_exit is None,
            old(self).awaiting == Awaiting::Nothing,
        ensures
            forall|r: RadioState|
                (*final(self), *final(sweep), r, call, Seq::<SweepNote>::empty())
                    == #[trigger] old(self).applying(u, *old(sweep), r),
            final(self).valid(),
    {
        let request = u.request;
        let changed = match self.requested {
            Some(before) => before != request,
            None => false,
        };
        if changed && sweep.generation == self.request_generation {
            sweep.generation = sweep.generation.wrapping_add(1);
        }
        self.requested = Some(request);
        self.request_generation = sweep.generation;
        let wanted = DirectSweepConfig {
            start_hz: request.start_hz,
            stop_hz: request.stop_hz,
            generation: sweep.generation,
        };
        let retry_due = match &self.failed {
            Some(f) => f.config != wanted || (u.now_ms >= f.at_ms && u.now_ms - f.at_ms
                >= DIRECT_SWEEP_RETRY_MS),
            None => true,
        };
        if self.applied == Some(wanted) || !retry_due {
            return None;
        }
        self.awaiting = Awaiting::Apply(wanted, u);
        Some(DeviceCall::SetDirectSweep(Some(wanted)))
    }

    /// Runs, starts or ends a session.
    fn run_session(
        &mut self,
        u: Sample,
        sweep: &mut SweepState,
        radio: &mut RadioState,
    ) -> (out: Outcome)
        requires
            old(self).pending_exit is None,
            old(self).awaiting == Awaiting::Nothing,
        ensures
            (*final(self), *final(sweep), *final(radio), out.call, out.notes@) == old(
                self,
            ).session_step(u, *old(sweep), *old(radio)),
            final(self).valid(),
    {
        let mut notes: Vec<SweepNote> = Vec::new();
        if u.active && !self.was_active {
            self.was_active = true;
            self.saved_frequency = radio.frequency;
            self.saved_rx_enabled = radio.rx_enabled;
            sweep.pre_sweep_hz = Some(self.saved_frequency);
            radio.rx_enabled = true;
            sweep.cycle_count = 0;
            sweep.positions_done = 0;
            sweep.positions_total = 0;
            sweep.current_frame = None;
            sweep.generation = sweep.generation.wrapping_add(1);
            notes.push(
                SweepNote::Started {
                    start_hz: u.request.start_hz,
                    stop_hz: u.request.stop_hz,
                },
            );
            assert(notes@ == seq![
                SweepNote::Started {
                    start_hz: u.request.start_hz,
                    stop_hz: u.request.stop_hz,
                },
            ]);
        } else {
            assert(notes@ == Seq::<SweepNote>::empty());
        }
        let call = if u.active {
            self.apply_request(u, sweep)
        } else if self.was_active {
            let exit = sweep.end(self.saved_frequency);
            sweep.generation = sweep.generation.wrapping_add(1);
            self.pending_exit = Some(
                PendingExit {
                    tune_hz: exit.tune_hz,
                    jumped: exit.jumped,
                    direct_disabled: false,
                    frequency_set: false,
                    retry_at_ms: u.now_ms,
                    last_error: None,
                },
            );
            self.awaiting = Awaiting::Disable(u);
            Some(DeviceCall::SetDirectSweep(None))
        } else {
            None
        };
        Outcome { call, notes }
    }

    /// Goes on with a pending exit.
    fn leave(
        &mut self,
        u: Sample,
        sweep: &mut SweepState,
        radio: &mut RadioState,
    ) -> (out: Outcome)
        requires
            old(self).pending_exit is Some,
            old(self).awaiting == Awaiting::Nothing,
        ensures
            (*final(self), *final(sweep), *final(radio), out.call, out.notes@) == old(
                self,
            ).exit_step(old(self).pending_exit->Some_0, u, *old(sweep), *old(radio)),
            final(self).valid(),
    {
        let (tune_hz, jumped, disabled, tuned, retry_at): (u64, bool, bool, bool, u64) =
            match &self.pending_exit {
            Some(p) => (p.tune_hz, p.jumped, p.direct_disabled, p.frequency_set, p.retry_at_ms),
            None => (0, false, false, false, 0),
        };
        let mut notes: Vec<SweepNote> = Vec::new();
        assert(notes@ == Seq::<SweepNote>::empty());
        if u.now_ms < retry_at {
            return Outcome { call: None, notes };
        }
        if !disabled {
            self.awaiting = Awaiting::Disable(u);
            return Outcome { call: Some(DeviceCall::SetDirectSweep(None)), notes };
        }
        if !tuned {
            self.awaiting = Awaiting::Retune(u);
            return Outcome { call: Some(DeviceCall::SetFrequency(tune_hz)), notes };
        }
        self.pending_exit = None;
        self.was_active = false;
        self.requested = None;
        self.applied = None;
        self.failed = None;
        radio.frequency = tune_hz;
        radio.rx_enabled = jumped || self.saved_rx_enabled;
        notes.push(
            if jumped {
                SweepNote::Tuned(tune_hz)
            } else {
                SweepNote::Stopped
            },
        );
        let mut rest = self.run_session(u, sweep, radio);
        let ghost first = notes@[0];
        let ghost more = rest.notes@;
        notes.append(&mut rest.notes);
        assert(notes@ == seq![first] + more);
        Outcome { call: rest.call, notes }
    }

    /// One step at a given time. Nothing may be awaited.
    pub fn update(
        &mut self,
        sweep: &mut SweepState,
        radio: &mut RadioState,
        now_ms: u64,
    ) -> (out: Outcome)
        requires
            old(self).awaiting == Awaiting::Nothing,
        ensures
            (*final(self), *final(sweep), *final(radio), out.call, out.notes@) == old(
                self,
            ).stepped(*old(sweep), *old(radio), now_ms),
            final(self).valid(),
    {
        let u = Sample::of(sweep, now_ms);
        if self.pending_exit.is_some() {
            self.leave(u, sweep, radio)
        } else {
            self.run_session(u, sweep, radio)
        }
    }

    /// The device carried out the call that is awaited.
    pub fn on_done(&mut self, sweep: &mut SweepState, radio: &mut RadioState) -> (out: Outcome)
        requires
            old(self).valid(),
            old(self).awaiting != Awaiting::Nothing,
        ensures
            final(self).valid(),
            (*final(self), *final(sweep), *final(radio), out.call, out.notes@) == old(
                self,
            ).answered(*old(sweep), *old(radio)),
    {
        let was = self.awaiting;
        self.awaiting = Awaiting::Nothing;
        match was {
            Awaiting::Nothing => Outcome { call: None, notes: Vec::new() },
            Awaiting::Apply(config, _) => {
                self.applied = Some(config);
                self.failed = None;
                Outcome { call: None, notes: Vec::new() }
            },
            Awaiting::Disable(u) => {
                let pending = self.pending_exit.take();
                if let Some(mut p) = pending {
                    p.direct_disabled = true;
                    self.pending_exit = Some(p);
                }
                self.leave(u, sweep, radio)
            },
            Awaiting::Retune(u) => {
                let pending = self.pending_exit.take();
                if let Some(mut p) = pending {
                    p.frequency_set = true;
                    self.pending_exit = Some(p);
                }
                self.leave(u, sweep, radio)
            },
        }
    }

    /// The device refused the call that is awaited. A refusal is noted once, not
    /// once a retry.
    pub fn on_refused(&mut self, message: String) -> (out: Outcome)
        requires
            old(self).valid(),
            old(self).awaiting != Awaiting::Nothing,
            old(self).awaiting is Apply || old(self).awaiting.sample().now_ms <= u64::MAX
                - DIRECT_SWEEP_RETRY_MS,
        ensures
            final(self).valid(),
            *final(self) == old(self).refused(message),
            out.call is None,
            match old(self).awaiting {
                Awaiting::Apply(config, _) => {
                    let known = old(self).failed matches Some(f) && f.config == config && f.message@
                        == message@;
                    out.notes@ == if known {
                        Seq::<SweepNote>::empty()
                    } else {
                        seq![SweepNote::Failed(message)]
                    }
                },
                _ => {
                    let p = old(self).pending_exit->Some_0;
                    let known = p.last_error matches Some(e) && e@ == message@;
                    out.notes@ == if known {
                        Seq::<SweepNote>::empty()
                    } else {
                        seq![SweepNote::RestoreFailed(message)]
                    }
                },
            },
    {
        let was = self.awaiting;
        self.awaiting = Awaiting::Nothing;
        let mut notes: Vec<SweepNote> = Vec::new();
        assert(notes@ == Seq::<SweepNote>::empty());
        match was {
            Awaiting::Nothing => {},
            Awaiting::Apply(config, u) => {
                let known = match &self.failed {
                    Some(f) => f.config == config && f.message == message,
                    None => false,
                };
                if !known {
                    notes.push(SweepNote::Failed(message.clone()));
                    assert(notes@ == seq![SweepNote::Failed(message)]);
                }
                self.failed = Some(FailedRequest { config, at_ms: u.now_ms, message });
            },
            Awaiting::Disable(u) | Awaiting::Retune(u) => {
                let pending = self.pending_exit.take();
                match pending {
                    Some(mut p) => {
                        let known = match &p.last_error {
                            Some(e) => *e == message,
                            None => false,
                        };
                        if !known {
                            notes.push(SweepNote::RestoreFailed(message.clone()));
                            assert(notes@ == seq![SweepNote::RestoreFailed(message)]);
                        }
                        p.last_error = Some(message);
                        p.retry_at_ms = u.now_ms + DIRECT_SWEEP_RETRY_MS;
                        self.pending_exit = Some(p);
                    },
                    None => {},
                }
            },
        }
        Outcome { call: None, notes }
    }
}

/// A sweep of another band never goes out under the generation of the band
/// before it.
pub proof fn law_another_band_is_another_generation(
    c: DirectSweepController,
    request: SweepRequest,
    generation: u64,
)
    requires
        c.requested matches Some(before) && before != request,
    ensures
        c.generation_for(request, generation) != c.request_generation,
{
}

/// Once the device has taken a band, asking for that band again changes nothing,
/// whenever it is and however long to dwell: nothing is called, nothing is noted, and
/// the generation stays.
pub proof fn law_dwell_is_not_a_request(
    c: DirectSweepController,
    s: SweepState,
    r: RadioState,
    now_ms: u64,
    config: DirectSweepConfig,
    again: SweepState,
    radio: RadioState,
    later_ms: u64,
)
    requires
        c.stepped(s, r, now_ms).3 == Some(DeviceCall::SetDirectSweep(Some(config))),
        again.active,
        again.generation == c.stepped(s, r, now_ms).1.generation,
        again.config.start_hz == config.start_hz,
        again.config.stop_hz == config.stop_hz,
    ensures
        ({
            let taken = c.stepped(s, r, now_ms).0.accepted(config);
            taken.stepped(again, radio, later_ms) == (
                taken,
                again,
                radio,
                None::<DeviceCall>,
                Seq::<SweepNote>::empty(),
            )
        }),
{
}

/// A refused request is not made again within the retry delay.
pub proof fn law_refused_request_waits(
    c: DirectSweepController,
    s: SweepState,
    r: RadioState,
    now_ms: u64,
)
    requires
        c.pending_exit is None,
        c.was_active,
        s.active,
        c.failed matches Some(f) && f.config == c.config_for(
            Sample::read(s, now_ms).request,
            s.generation,
        ) && now_ms - f.at_ms < DIRECT_SWEEP_RETRY_MS,
    ensures
        c.stepped(s, r, now_ms).3 is None,
{
}

/// While an exit is pending the device is never asked to sweep: it is told to
/// stop and tuned back first.
pub proof fn law_exit_comes_before_the_next_sweep(
    c: DirectSweepController,
    s: SweepState,
    r: RadioState,
    now_ms: u64,
)
    requires
        c.pending_exit matches Some(p) && !(p.direct_disabled && p.frequency_set),
    ensures
        !(c.stepped(s, r, now_ms).3 matches Some(DeviceCall::SetDirectSweep(Some(_)))),
        c.stepped(s, r, now_ms).0.pending_exit == c.pending_exit,
{
}

/// A session that begins and ends gives the radio back: it ends tuned where the
/// user asked to go, or else where it was, and receiving as it was unless the
/// user went somewhere.
pub proof fn law_session_gives_the_radio_back(
    c: DirectSweepController,
    s: SweepState,
    r: RadioState,
    during: SweepState,
    moved: RadioState,
    now_ms: u64,
)
    requires
        c.pending_exit is None,
        !c.was_active,
        s.active,
        !during.active,
        during.pre_sweep_hz == c.entered(s, r).1.pre_sweep_hz,
    ensures
        ({
            let (entered, _, _) = c.entered(s, r);
            let (leaving, _) = entered.leaving(during, now_ms);
            let p = leaving.pending_exit->Some_0;
            let (left, end) = leaving.left(p, moved);
            &&& end.frequency == match during.pending_tune {
                Some(hz) => hz,
                None => r.frequency,
            }
            &&& end.rx_enabled == (during.pending_tune is Some || r.rx_enabled)
            &&& !left.was_active
            &&& left.pending_exit is None
        }),
{
}

/// What happens between the controller and the device.
pub enum Happening {
    Asked(DeviceCall, u64),
    Done(DeviceCall, u64),
    Refused(DeviceCall, u64),
}

/// What moves an exit on: an update, or the answer to the call that is awaited.
pub enum ExitEvent {
    Step { sweep: SweepState, now_ms: u64 },
    Done { sweep: SweepState },
    Refused { message: String },
}

/// The controller, the radio, and what has happened so far.
pub type ExitRun = (DirectSweepController, RadioState, Seq<Happening>);

/// The call that is awaited during an exit.
pub open spec fn awaited_call(c: DirectSweepController) -> DeviceCall {
    if c.awaiting is Retune {
        DeviceCall::SetFrequency(c.pending_exit->Some_0.tune_hz)
    } else {
        DeviceCall::SetDirectSweep(None)
    }
}

/// What has happened, with a call that is made.
pub open spec fn with_call(record: Seq<Happening>, call: Option<DeviceCall>, now_ms: u64) -> Seq<
    Happening,
> {
    match call {
        Some(made) => record.push(Happening::Asked(made, now_ms)),
        None => record,
    }
}

/// A run with one more event.
pub open spec fn after_event(run: ExitRun, e: ExitEvent) -> ExitRun {
    let (c, r, record) = run;
    match e {
        ExitEvent::Step { sweep, now_ms } => {
            let (next, _, radio, call, _) = c.stepped(sweep, r, now_ms);
            (next, radio, with_call(record, call, now_ms))
        },
        ExitEvent::Done { sweep } => {
            let now_ms = c.awaiting.sample().now_ms;
            let (next, _, radio, call, _) = c.answered(sweep, r);
            let told = record.push(Happening::Done(awaited_call(c), now_ms));
            (next, radio, with_call(told, call, now_ms))
        },
        ExitEvent::Refused { message } => (
            c.refused(message),
            r,
            record.push(Happening::Refused(awaited_call(c), c.awaiting.sample().now_ms)),
        ),
    }
}

/// The first step of an exit.
pub open spec fn exit_start(
    c: DirectSweepController,
    s: SweepState,
    r: RadioState,
    now_ms: u64,
) -> ExitRun {
    after_event((c, r, Seq::empty()), ExitEvent::Step { sweep: s, now_ms })
}

/// A run after events.
pub open spec fn after_events(start: ExitRun, events: Seq<ExitEvent>) -> ExitRun
    decreases events.len(),
{
    if events.len() == 0 {
        start
    } else {
        after_event(after_events(start, events.drop_last()), events.last())
    }
}

/// What the last update read. The exit began with one that was not to sweep.
pub open spec fn last_read(began: Sample, events: Seq<ExitEvent>) -> Sample
    decreases events.len(),
{
    if events.len() == 0 {
        began
    } else {
        match events.last() {
            ExitEvent::Step { sweep, now_ms } => Sample::read(sweep, now_ms),
            _ => last_read(began, events.drop_last()),
        }
    }
}

/// Whether events can follow each other while the exit is pending: time does not run
/// back, an update comes where nothing is awaited, and an answer where something is.
pub open spec fn can_happen(start: ExitRun, began: Sample, events: Seq<ExitEvent>) -> bool
    decreases events.len(),
{
    events.len() > 0 ==> {
        let before = events.drop_last();
        let c = after_events(start, before).0;
        &&& can_happen(start, began, before)
        &&& c.pending_exit is Some
        &&& (events.last() is Step <==> c.awaiting == Awaiting::Nothing)
        &&& last_read(began, before).now_ms <= last_read(began, events).now_ms <= u64::MAX
            - DIRECT_SWEEP_RETRY_MS
    }
}

/// Whether the device was told to stop sweeping, and did, before place `j`.
pub open spec fn stopped_before(record: Seq<Happening>, j: int) -> bool {
    exists|i: int|
        0 <= i < j && (#[trigger] record[i] matches Happening::Done(call, _) && call
            == DeviceCall::SetDirectSweep(None))
}

/// Whether the device carried out a call.
pub open spec fn carried_out(record: Seq<Happening>, call: DeviceCall) -> bool {
    exists|i: int|
        0 <= i < record.len() && (#[trigger] record[i] matches Happening::Done(done, _) && done
            == call)
}

/// Whether the calls of an exit come in order: the radio is not tuned before the
/// device has stopped sweeping, a call that was carried out is not made again, and
/// none is made within the retry delay of a refusal.
pub open spec fn in_order(record: Seq<Happening>) -> bool {
    &&& forall|j: int|
        0 <= j < record.len() ==> (#[trigger] record[j] matches Happening::Asked(
            DeviceCall::SetFrequency(_),
            _,
        ) ==> stopped_before(record, j))
    &&& forall|i: int, j: int|
        #![trigger record[i], record[j]]
        0 <= i < j < record.len() ==> (record[i] matches Happening::Done(done, _) ==> (
        record[j] matches Happening::Asked(made, _) ==> made != done))
    &&& forall|i: int, j: int|
        #![trigger record[i], record[j]]
        0 <= i < j < record.len() ==> (record[i] matches Happening::Refused(_, at) ==> (
        record[j] matches Happening::Asked(_, again) ==> at + DIRECT_SWEEP_RETRY_MS <= again))
}

/// What holds while an exit is pending.
spec fn pending_holds(
    run: ExitRun,
    exit: SweepExit,
    saved_rx_enabled: bool,
    radio: RadioState,
    last: Sample,
) -> bool {
    let (c, r, record) = run;
    &&& r == radio
    &&& c.valid()
    &&& !(c.awaiting is Apply)
    &&& c.awaiting != Awaiting::Nothing ==> c.awaiting.sample() == last
    &&& c.saved_rx_enabled == saved_rx_enabled
    &&& in_order(record)
    &&& c.pending_exit matches Some(p)
    &&& p.tune_hz == exit.tune_hz && p.jumped == exit.jumped
    &&& !p.frequency_set
    &&& p.direct_disabled == stopped_before(record, record.len() as int)
    &&& forall|i: int|
        0 <= i < record.len() ==> {
            &&& #[trigger] record[i] matches Happening::Done(call, _) ==> call
                == DeviceCall::SetDirectSweep(None)
            &&& record[i] matches Happening::Refused(_, at) ==> at + DIRECT_SWEEP_RETRY_MS
                <= p.retry_at_ms
        }
}

/// One more event keeps what holds, or ends the exit.
proof fn lemma_exit_event(
    run: ExitRun,
    exit: SweepExit,
    saved_rx_enabled: bool,
    radio: RadioState,
    last: Sample,
    e: ExitEvent,
)
    requires
        pending_holds(run, exit, saved_rx_enabled, radio, last),
        e is Step <==> run.0.awaiting == Awaiting::Nothing,
        last.now_ms <= u64::MAX - DIRECT_SWEEP_RETRY_MS,
    ensures
        ({
            let next = after_event(run, e);
            if e is Done && run.0.awaiting is Retune {
                &&& in_order(next.2)
                &&& next.0.pending_exit is None
                &&& carried_out(next.2, DeviceCall::SetDirectSweep(None))
                &&& carried_out(next.2, DeviceCall::SetFrequency(exit.tune_hz))
                &&& next.1.frequency == exit.tune_hz
                &&& next.1.rx_enabled == (last.active || exit.jumped || saved_rx_enabled)
            } else {
                pending_holds(
                    next,
                    exit,
                    saved_rx_enabled,
                    radio,
                    match e {
                        ExitEvent::Step { sweep, now_ms } => Sample::read(sweep, now_ms),
                        _ => last,
                    },
                )
            }
        }),
{
    let (c, _, record) = run;
    let n = record.len() as int;
    match e {
        ExitEvent::Step { sweep, now_ms } => {
            let call = c.stepped(sweep, radio, now_ms).3;
            if let Some(made) = call {
                lemma_order_grows(record, Happening::Asked(made, now_ms));
            }
        },
        ExitEvent::Done { sweep } => {
            let done = Happening::Done(awaited_call(c), last.now_ms);
            let told = record.push(done);
            lemma_order_grows(record, done);
            assert(told[n] == done);
            let call = c.answered(sweep, radio).3;
            if c.awaiting is Retune {
                assert(carried_out(record, DeviceCall::SetDirectSweep(None)));
                lemma_carried_out_grows(record, done, DeviceCall::SetDirectSweep(None));
                assert(carried_out(told, DeviceCall::SetFrequency(exit.tune_hz)));
            }
            if let Some(made) = call {
                let asked = Happening::Asked(made, last.now_ms);
                lemma_order_grows(told, asked);
                if c.awaiting is Retune {
                    lemma_carried_out_grows(told, asked, DeviceCall::SetDirectSweep(None));
                    lemma_carried_out_grows(told, asked, DeviceCall::SetFrequency(exit.tune_hz));
                }
            }
        },
        ExitEvent::Refused { message } => {
            lemma_order_grows(record, Happening::Refused(awaited_call(c), last.now_ms));
        },
    }
}

/// What was carried out stays so.
proof fn lemma_carried_out_grows(record: Seq<Happening>, h: Happening, call: DeviceCall)
    requires
        carried_out(record, call),
    ensures
        carried_out(record.push(h), call),
{
    let i = choose|i: int|
        0 <= i < record.len() && (#[trigger] record[i] matches Happening::Done(done, _) && done
            == call);
    assert(record.push(h)[i] == record[i]);
}

/// What comes later does not change what came before.
proof fn lemma_stopped_grows(record: Seq<Happening>, h: Happening, j: int)
    requires
        0 <= j <= record.len(),
    ensures
        stopped_before(record.push(h), j) == stopped_before(record, j),
{
    let longer = record.push(h);
    if stopped_before(record, j) {
        let i = choose|i: int|
            0 <= i < j && (#[trigger] record[i] matches Happening::Done(call, _) && call
                == DeviceCall::SetDirectSweep(None));
        assert(longer[i] == record[i]);
    }
    if stopped_before(longer, j) {
        let i = choose|i: int|
            0 <= i < j && (#[trigger] longer[i] matches Happening::Done(call, _) && call
                == DeviceCall::SetDirectSweep(None));
        assert(longer[i] == record[i]);
    }
}

/// A happening that comes in its turn keeps the order.
proof fn lemma_order_grows(record: Seq<Happening>, h: Happening)
    requires
        in_order(record),
        h matches Happening::Asked(DeviceCall::SetFrequency(_), _) ==> stopped_before(
            record,
            record.len() as int,
        ),
        h matches Happening::Asked(made, at) ==> forall|i: int|
            0 <= i < record.len() ==> {
                &&& #[trigger] record[i] matches Happening::Done(done, _) ==> made != done
                &&& record[i] matches Happening::Refused(_, when) ==> when + DIRECT_SWEEP_RETRY_MS
                    <= at
            },
    ensures
        in_order(record.push(h)),
        stopped_before(record.push(h), record.len() as int + 1) == (stopped_before(
            record,
            record.len() as int,
        ) || (h matches Happening::Done(call, _) && call == DeviceCall::SetDirectSweep(None))),
{
    let n = record.len() as int;
    let longer = record.push(h);
    assert(forall|i: int| 0 <= i < n ==> #[trigger] longer[i] == record[i]);
    assert(longer[n] == h);
    assert forall|j: int|
        0 <= j < longer.len() && (#[trigger] longer[j] matches Happening::Asked(
            DeviceCall::SetFrequency(_),
            _,
        )) implies stopped_before(longer, j) by {
        lemma_stopped_grows(record, h, j);
        if j < n {
            assert(stopped_before(record, j));
        }
    }
    lemma_stopped_grows(record, h, n);
    if stopped_before(record, n) {
        let i = choose|i: int|
            0 <= i < n && (#[trigger] record[i] matches Happening::Done(call, _) && call
                == DeviceCall::SetDirectSweep(None));
        assert(longer[i] == record[i]);
    }
}

/// An update that was not asked to sweep when it began asks for no sweep when the
/// answers to its calls come, whatever the sweep has become by then. One that was
/// asked to asks for the band it was asked for.
pub proof fn law_an_update_reads_the_sweep_once(
    c: DirectSweepController,
    s: SweepState,
    r: RadioState,
    config: DirectSweepConfig,
)
    requires
        c.valid(),
        c.awaiting != Awaiting::Nothing,
        c.answered(s, r).3 == Some(DeviceCall::SetDirectSweep(Some(config))),
    ensures
        c.awaiting.sample().active,
        config.start_hz == c.awaiting.sample().request.start_hz,
        config.stop_hz == c.awaiting.sample().request.stop_hz,
{
}

/// An exit as a whole, however often each of its calls fails: the radio is not tuned
/// before the device has stopped sweeping, a call that succeeded is not made again,
/// and none is made within the retry delay of a failure. The exit is over once both
/// have succeeded, and not before. Until then the radio stays as it was; then it is
/// tuned where the exit leads, and receives where the user went there, where it did
/// before, or where the update that ended the exit was asked for a new sweep. The
/// update that began the exit was not.
pub proof fn law_exit_as_a_whole(
    c: DirectSweepController,
    s: SweepState,
    r: RadioState,
    began_ms: u64,
    events: Seq<ExitEvent>,
)
    requires
        c.was_active,
        !s.active,
        c.pending_exit is None,
        c.awaiting == Awaiting::Nothing,
        can_happen(exit_start(c, s, r, began_ms), Sample::read(s, began_ms), events),
    ensures
        ({
            let (end, radio, record) = after_events(exit_start(c, s, r, began_ms), events);
            let exit = s.exit_from(c.saved_frequency);
            let last = last_read(Sample::read(s, began_ms), events);
            &&& in_order(record)
            &&& end.pending_exit is None <==> carried_out(
                record,
                DeviceCall::SetDirectSweep(None),
            ) && carried_out(record, DeviceCall::SetFrequency(exit.tune_hz))
            &&& if end.pending_exit is Some {
                radio == r
            } else {
                &&& radio.frequency == exit.tune_hz
                &&& radio.rx_enabled == (exit.jumped || c.saved_rx_enabled || last.active)
            }
        }),
{
    lemma_exit_run(c, s, r, began_ms, events);
}

proof fn lemma_exit_run(
    c: DirectSweepController,
    s: SweepState,
    r: RadioState,
    began_ms: u64,
    events: Seq<ExitEvent>,
)
    requires
        c.was_active,
        !s.active,
        c.pending_exit is None,
        c.awaiting == Awaiting::Nothing,
        can_happen(exit_start(c, s, r, began_ms), Sample::read(s, began_ms), events),
    ensures
        ({
            let run = after_events(exit_start(c, s, r, began_ms), events);
            let exit = s.exit_from(c.saved_frequency);
            let last = last_read(Sample::read(s, began_ms), events);
            &&& in_order(run.2)
            &&& if run.0.pending_exit is Some {
                pending_holds(run, exit, c.saved_rx_enabled, r, last)
            } else {
                &&& carried_out(run.2, DeviceCall::SetDirectSweep(None))
                &&& carried_out(run.2, DeviceCall::SetFrequency(exit.tune_hz))
                &&& run.1.frequency == exit.tune_hz
                &&& run.1.rx_enabled == (exit.jumped || c.saved_rx_enabled || last.active)
            }
        }),
    decreases events.len(),
{
    let start = exit_start(c, s, r, began_ms);
    let exit = s.exit_from(c.saved_frequency);
    let began = Sample::read(s, began_ms);
    if events.len() == 0 {
        assert(start.2 == seq![Happening::Asked(DeviceCall::SetDirectSweep(None), began_ms)]);
    } else {
        lemma_exit_run(c, s, r, began_ms, events.drop_last());
        lemma_exit_event(
            after_events(start, events.drop_last()),
            exit,
            c.saved_rx_enabled,
            r,
            last_read(began, events.drop_last()),
            events.last(),
        );
    }
}

/// A controller that is doing nothing begins a sweep afresh where one is asked for: the
/// band that was asked for goes to the device under a new generation, nothing is left
/// of the sweep before, and where the radio was is remembered.
pub proof fn law_a_sweep_begins_afresh(
    c: DirectSweepController,
    s: SweepState,
    r: RadioState,
    now_ms: u64,
)
    requires
        c.pending_exit is None,
        !c.was_active,
        c.requested is None,
        c.applied is None,
        c.failed is None,
        s.active,
    ensures
        ({
            let (next, t, q, call, notes) = c.stepped(s, r, now_ms);
            &&& call matches Some(DeviceCall::SetDirectSweep(Some(config)))
            &&& config.start_hz == s.config.start_hz
            &&& config.stop_hz == s.config.stop_hz
            &&& config.generation == t.generation
            &&& t.generation == s.generation + 1 || (s.generation == u64::MAX && t.generation == 0)
            &&& t.cycle_count == 0 && t.positions_done == 0 && t.positions_total == 0
            &&& t.current_frame is None
            &&& t.pre_sweep_hz == Some(r.frequency)
            &&& t.config == s.config
            &&& q.rx_enabled && q.frequency == r.frequency
            &&& notes.len() == 1
            &&& notes[0] == (SweepNote::Started {
                start_hz: s.config.start_hz,
                stop_hz: s.config.stop_hz,
            })
            &&& next.was_active && next.saved_frequency == r.frequency && next.saved_rx_enabled
                == r.rx_enabled
        }),
{
}

/// A request that was refused is made again, the same, once a second has passed and
/// not sooner.
pub proof fn law_a_refused_request_is_made_again_after_a_second(
    c: DirectSweepController,
    s: SweepState,
    r: RadioState,
    now_ms: u64,
    config: DirectSweepConfig,
    message: String,
    again: SweepState,
    radio: RadioState,
    later_ms: u64,
)
    requires
        c.stepped(s, r, now_ms).3 == Some(DeviceCall::SetDirectSweep(Some(config))),
        again.active,
        again.generation == c.stepped(s, r, now_ms).1.generation,
        again.config.start_hz == config.start_hz,
        again.config.stop_hz == config.stop_hz,
    ensures
        ({
            let (next, _, q, call, notes) = c.stepped(s, r, now_ms).0.refused(message).stepped(
                again,
                radio,
                later_ms,
            );
            &&& q == radio
            &&& notes.len() == 0
            &&& later_ms >= now_ms + 1_000 ==> call == Some(
                DeviceCall::SetDirectSweep(Some(config)),
            )
            &&& later_ms < now_ms + 1_000 ==> call is None
        }),
{
}

/// Another band than the one in force is asked for at once, under another generation.
pub proof fn law_another_band_is_asked_for_at_once(
    c: DirectSweepController,
    s: SweepState,
    r: RadioState,
    now_ms: u64,
    before: DirectSweepConfig,
)
    requires
        c.pending_exit is None,
        c.was_active,
        c.failed is None,
        s.active,
        c.applied == Some(before),
        c.requested == Some(SweepRequest { start_hz: before.start_hz, stop_hz: before.stop_hz }),
        c.request_generation == before.generation,
        s.config.start_hz != before.start_hz || s.config.stop_hz != before.stop_hz,
    ensures
        c.stepped(s, r, now_ms).3 matches Some(DeviceCall::SetDirectSweep(Some(config))) && {
            &&& config.start_hz == s.config.start_hz
            &&& config.stop_hz == s.config.stop_hz
            &&& config.generation != before.generation
            &&& config.generation == c.stepped(s, r, now_ms).1.generation
        },
        c.stepped(s, r, now_ms).2 == r,
{
}

/// A sweep that is no longer asked for is stopped at the device, and what was measured
/// under its generation is no longer taken.
pub proof fn law_a_sweep_that_is_not_asked_for_is_stopped(
    c: DirectSweepController,
    s: SweepState,
    r: RadioState,
    now_ms: u64,
)
    requires
        c.pending_exit is None,
        c.was_active,
        !s.active,
    ensures
        ({
            let (next, t, q, call, notes) = c.stepped(s, r, now_ms);
            &&& call == Some(DeviceCall::SetDirectSweep(None))
            &&& next.pending_exit is Some
            &&& t.generation != s.generation
            &&& t.pending_tune is None && t.pre_sweep_hz is None
            &&& q == r
            &&& notes.len() == 0
        }),
{
}

} // verus!
