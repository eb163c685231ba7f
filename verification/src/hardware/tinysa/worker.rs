//! The state of an open analyser and what each command and scan does to it.

use crate::hardware::tinysa::input::BasicInput;
use crate::hardware::tinysa::protocol::Model;
use crate::hardware::tinysa::reader::ScanTrace;
use crate::hardware::tinysa::scan;
use crate::hardware::tinysa::scan::{
    GridError, ScanSettings, Segment, SpanError, SweepRangeError, DEFAULT_SPAN_HZ,
};
use crate::hardware::{DirectSweepConfig, PowerTraceTarget};
use crate::text;
use vstd::prelude::*;

verus! {

/// What the rest of the program asks of an open analyser.
#[derive(Clone, Copy, Debug, PartialEq, Eq, Structural)]
pub enum Command {
    Start,
    Stop,
    IsStreaming,
    SetFrequency(u64),
    /// A span in thousandths of a hertz; `None` is no finite number.
    SetSpan(Option<i64>),
    NoOp,
    SetDirectSweep(Option<DirectSweepConfig>),
    Shutdown,
}

/// Why a command was refused.
#[derive(Clone, Copy, Debug, PartialEq, Eq, Structural)]
pub enum CommandError {
    AlreadyRunning,
    BadSpan(SpanError),
    BadSweep(SweepRangeError),
    /// The scan the command interrupted could not be ended.
    AbortFailed,
}

impl CommandError {
    pub open spec fn text(self, drain: Seq<char>) -> Seq<char> {
        match self {
            CommandError::AlreadyRunning => "tinySA acquisition is already running"@,
            CommandError::BadSpan(_) => "tinySA span must be a positive finite value"@,
            CommandError::BadSweep(e) => "tinySA sweep must be within "@ + text::decimal(
                e.minimum_hz as nat,
            ) + ".."@ + text::decimal(e.maximum_hz as nat) + " Hz with start below stop"@,
            CommandError::AbortFailed => drain,
        }
    }

    /// The sentence shown for the error; `drain` says why a scan could not be ended.
    pub fn message(self, drain: &str) -> (out: String)
        ensures
            out@ == self.text(drain@),
    {
        match self {
            CommandError::AlreadyRunning => {
                let t: Vec<char> = text::to_chars("tinySA acquisition is already running");
                text::from_chars(t.as_slice())
            },
            CommandError::BadSpan(e) => {
                let t: Vec<char> = text::to_chars(e.message());
                text::from_chars(t.as_slice())
            },
            CommandError::BadSweep(e) => e.message(),
            CommandError::AbortFailed => {
                let t: Vec<char> = text::to_chars(drain);
                text::from_chars(t.as_slice())
            },
        }
    }
}

/// The answer to a command.
#[derive(Clone, Copy, Debug, PartialEq, Eq, Structural)]
pub enum Reply {
    Done,
    Streaming(bool),
    /// The span granted, and the bandwidth it is measured with where one is set.
    Span { span_hz: u64, rbw_hz: u32 },
    Refused(CommandError),
}

/// An open analyser.
#[derive(Clone, Copy, Debug, PartialEq, Eq, Structural)]
pub struct Worker {
    pub model: Model,
    pub basic_input: BasicInput,
    pub zero_dbm: i32,
    pub settings: ScanSettings,
    pub center_hz: u64,
    pub span_hz: u64,
    pub direct_sweep: Option<DirectSweepConfig>,
    pub streaming: bool,
}

/// What the worker does next.
#[derive(Clone, Copy, Debug, PartialEq, Eq, Structural)]
pub enum NextMove {
    /// Wait for a command.
    AwaitCommand,
    /// Take a command if one has come.
    PollCommand,
    Scan { segment: Segment, timeout_ms: u128 },
    Exit,
}

/// Why a scan could not be made or shown.
#[derive(Clone, Copy, Debug, PartialEq, Eq, Structural)]
pub enum ScanFailure {
    TooNarrow { points: u32 },
    BadGrid(GridError),
    /// The port failed or the reply was refused.
    Reply,
    /// The interrupted scan could not be ended.
    Abort,
}

impl ScanFailure {
    pub open spec fn text(self, port: Seq<char>) -> Seq<char> {
        match self {
            ScanFailure::TooNarrow { points } => "tinySA scan span is too narrow for "@
                + text::decimal(points as nat) + " points"@,
            ScanFailure::BadGrid(e) => e.text(),
            ScanFailure::Reply => port,
            ScanFailure::Abort => port,
        }
    }

    /// The sentence shown for the failure; `port` says what went wrong on the port.
    pub fn message(self, port: &str) -> (out: String)
        ensures
            out@ == self.text(port@),
    {
        match self {
            ScanFailure::TooNarrow { points } => {
                let mut t: Vec<char> = text::to_chars("tinySA scan span is too narrow for ");
                text::push_decimal(&mut t, points as u64);
                text::push_str(&mut t, " points");
                text::from_chars(t.as_slice())
            },
            ScanFailure::BadGrid(e) => e.message(),
            ScanFailure::Reply | ScanFailure::Abort => {
                let t: Vec<char> = text::to_chars(port);
                text::from_chars(t.as_slice())
            },
        }
    }
}

/// What one turn of the worker brings about.
#[derive(Clone, Copy, Debug, PartialEq, Eq, Structural)]
pub struct Turn {
    pub reply: Option<Reply>,
    /// An acquisition that was running ends with this failure.
    pub stopped: Option<ScanFailure>,
    /// The analyser is told to abort, whatever it answers.
    pub abort: bool,
    pub next: NextMove,
}

/// A trace to hand to the rest of the program.
pub struct Publication {
    pub target: PowerTraceTarget,
    pub generation: u64,
    pub frequencies_hz: Vec<u64>,
    pub levels: Vec<i64>,
    pub rbw_hz: Option<u32>,
    /// Where the radio now is, if the trace was a spectrum and was taken.
    pub tuned: Option<(u64, u64)>,
}

/// Whether a command ends the scan that is running. A question does not.
pub fn interrupts_scan(command: Command) -> (r: bool)
    ensures
        r == (command != Command::IsStreaming),
{
    command != Command::IsStreaming
}

impl Worker {
    pub open spec fn low(self) -> int {
        scan::range_of(self.model, self.basic_input).0 as int
    }

    pub open spec fn high(self) -> int {
        scan::range_of(self.model, self.basic_input).1 as int
    }

    pub open spec fn valid(self) -> bool {
        &&& 0 < self.settings.points <= self.high() - self.low()
        &&& self.settings.rbw_hz != Some(0u32)
        &&& self.direct_sweep matches Some(c) ==> scan::sweep_fits(c, self.model)
    }

    /// The bandwidth reported with a span.
    pub open spec fn reported_rbw(self) -> u32 {
        match self.settings.rbw_hz {
            Some(hz) => hz,
            None => 0,
        }
    }

    /// The worker and the answer after a command.
    pub open spec fn handled(self, command: Command) -> (Worker, Reply) {
        match command {
            Command::Start => if self.streaming {
                (self, Reply::Refused(CommandError::AlreadyRunning))
            } else {
                (Worker { streaming: true, ..self }, Reply::Done)
            },
            Command::Stop => (Worker { streaming: false, ..self }, Reply::Done),
            Command::IsStreaming => (self, Reply::Streaming(self.streaming)),
            Command::SetFrequency(hz) => (
                Worker {
                    center_hz: scan::clamped(hz as int, self.low(), self.high()) as u64,
                    ..self
                },
                Reply::Done,
            ),
            Command::SetSpan(wanted) => match wanted {
                Some(m) if m > 0 => {
                    let span = scan::clamped(
                        (m + 500) / 1000,
                        self.settings.points as int,
                        self.high() - self.low(),
                    ) as u64;
                    (
                        Worker { span_hz: span, ..self },
                        Reply::Span { span_hz: span, rbw_hz: self.reported_rbw() },
                    )
                },
                _ => (self, Reply::Refused(CommandError::BadSpan(SpanError::NotPositive))),
            },
            Command::NoOp => (self, Reply::Done),
            Command::SetDirectSweep(config) => if config matches Some(c) && !scan::sweep_fits(
                c,
                self.model,
            ) {
                (
                    self,
                    Reply::Refused(
                        CommandError::BadSweep(
                            SweepRangeError {
                                minimum_hz: crate::hardware::tinysa::input::MIN_FREQUENCY_HZ,
                                maximum_hz: self.model.max_hz(),
                            },
                        ),
                    ),
                )
            } else {
                (Worker { direct_sweep: config, ..self }, Reply::Done)
            },
            Command::Shutdown => (Worker { streaming: false, ..self }, Reply::Done),
        }
    }

    /// The window the next scan covers.
    pub open spec fn window(self) -> (int, int) {
        match self.direct_sweep {
            Some(c) => (c.start_hz as int, c.stop_hz as int),
            None => {
                let start = scan::window_start(
                    self.center_hz as int,
                    self.span_hz as int,
                    self.low(),
                    self.high(),
                );
                (start, start + scan::lesser(self.span_hz as int, self.high() - self.low()))
            },
        }
    }

    /// The segment the next scan covers.
    pub open spec fn next_segment(self) -> Segment {
        Segment {
            start_hz: self.window().0 as u64,
            stop_hz: self.window().1 as u64,
            points: self.settings.points,
        }
    }

    /// The worker once a scan has been planned: it is tuned to the window.
    pub open spec fn planned(self) -> Worker {
        Worker {
            center_hz: scan::center_of(self.window().0, self.window().1) as u64,
            span_hz: (self.window().1 - self.window().0) as u64,
            ..self
        }
    }

    /// Whether the next window has a hertz for every point.
    pub open spec fn wide_enough(self) -> bool {
        self.window().1 - self.window().0 >= self.settings.points
    }

    /// The worker and the turn when nothing is to be done but go on.
    pub open spec fn going_on(self, reply: Option<Reply>) -> (Worker, Turn) {
        if !self.streaming {
            (self, Turn { reply, stopped: None, abort: false, next: NextMove::AwaitCommand })
        } else if self.wide_enough() {
            (
                self.planned(),
                Turn {
                    reply,
                    stopped: None,
                    abort: false,
                    next: NextMove::Scan {
                        segment: self.next_segment(),
                        timeout_ms: scan::silence_ms(
                            self.next_segment(),
                            self.model,
                            self.settings,
                        ) as u128,
                    },
                },
            )
        } else {
            (
                Worker { streaming: false, ..self.planned() },
                Turn {
                    reply,
                    stopped: Some(ScanFailure::TooNarrow { points: self.settings.points }),
                    abort: true,
                    next: NextMove::Exit,
                },
            )
        }
    }

    /// An analyser that has just been opened.
    pub fn open(
        model: Model,
        basic_input: BasicInput,
        zero_dbm: i32,
    ) -> (w: Self)
        ensures
            w.valid(),
            w == (Worker {
                model,
                basic_input,
                zero_dbm,
                settings: scan::startup_scan(model),
                center_hz: scan::clamped(
                    scan::DEFAULT_FREQUENCY_HZ as int,
                    scan::range_of(model, basic_input).0 as int,
                    scan::range_of(model, basic_input).1 as int,
                ) as u64,
                span_hz: DEFAULT_SPAN_HZ,
                direct_sweep: None,
                streaming: false,
            }),
    {
        let (settings, _) = scan::startup_settings(model);
        Worker {
            model,
            basic_input,
            zero_dbm,
            settings,
            center_hz: scan::default_frequency(model, basic_input),
            span_hz: DEFAULT_SPAN_HZ,
            direct_sweep: None,
            streaming: false,
        }
    }

    /// Carries out a command.
    pub fn handle_command(&mut self, command: Command) -> (r: (Reply, bool))
        requires
            old(self).valid(),
        ensures
            final(self).valid(),
            (*final(self), r.0) == old(self).handled(command),
            r.1 == (command != Command::Shutdown),
    {
        match command {
            Command::Start => {
                if self.streaming {
                    return (Reply::Refused(CommandError::AlreadyRunning), true);
                }
                self.streaming = true;
                (Reply::Done, true)
            },
            Command::Stop => {
                self.streaming = false;
                (Reply::Done, true)
            },
            Command::IsStreaming => (Reply::Streaming(self.streaming), true),
            Command::SetFrequency(hz) => {
                let (minimum, maximum): (u64, u64) = scan::frequency_range(
                    self.model,
                    self.basic_input,
                );
                self.center_hz = scan::clamp_hz(hz, minimum, maximum);
                (Reply::Done, true)
            },
            Command::SetSpan(wanted) => {
                let (minimum, maximum): (u64, u64) = scan::frequency_range(
                    self.model,
                    self.basic_input,
                );
                match scan::normalize_span(wanted, maximum - minimum, self.settings.points) {
                    Ok(span_hz) => {
                        self.span_hz = span_hz;
                        let rbw_hz: u32 = match self.settings.rbw_hz {
                            Some(hz) => hz,
                            None => 0,
                        };
                        (Reply::Span { span_hz, rbw_hz }, true)
                    },
                    Err(e) => (Reply::Refused(CommandError::BadSpan(e)), true),
                }
            },
            Command::NoOp => (Reply::Done, true),
            Command::SetDirectSweep(config) => match scan::validate_direct_sweep(
                config,
                self.model,
            ) {
                Ok(()) => {
                    self.direct_sweep = config;
                    (Reply::Done, true)
                },
                Err(e) => (Reply::Refused(CommandError::BadSweep(e)), true),
            },
            Command::Shutdown => {
                self.streaming = false;
                (Reply::Done, false)
            },
        }
    }

    /// Tunes to the window of the next scan.
    fn plan_scan(&mut self) -> (r: Result<Segment, ScanFailure>)
        requires
            old(self).valid(),
        ensures
            final(self).valid(),
            *final(self) == old(self).planned(),
            r == if old(self).wide_enough() {
                Ok::<Segment, ScanFailure>(old(self).next_segment())
            } else {
                Err::<Segment, ScanFailure>(
                    ScanFailure::TooNarrow { points: old(self).settings.points },
                )
            },
    {
        let (minimum_hz, maximum_hz): (u64, u64) = scan::frequency_range(
            self.model,
            self.basic_input,
        );
        let (start_hz, stop_hz): (u64, u64) = match self.direct_sweep {
            Some(c) => (c.start_hz, c.stop_hz),
            None => scan::centered_window(self.center_hz, self.span_hz, minimum_hz, maximum_hz),
        };
        let points: u32 = self.settings.points;
        self.center_hz = scan::window_center(start_hz, stop_hz);
        self.span_hz = stop_hz - start_hz;
        if self.span_hz < points as u64 {
            return Err(ScanFailure::TooNarrow { points });
        }
        Ok(Segment { start_hz, stop_hz, points })
    }

    /// Goes on: waits for a command, or starts the next scan.
    pub fn proceed(&mut self, reply: Option<Reply>) -> (turn: Turn)
        requires
            old(self).valid(),
        ensures
            final(self).valid(),
            (*final(self), turn) == old(self).going_on(reply),
    {
        if !self.streaming {
            return Turn { reply, stopped: None, abort: false, next: NextMove::AwaitCommand };
        }
        match self.plan_scan() {
            Ok(segment) => {
                let timeout_ms: u128 = scan::scan_inactivity_timeout(
                    segment,
                    self.model,
                    self.settings,
                );
                Turn {
                    reply,
                    stopped: None,
                    abort: false,
                    next: NextMove::Scan { segment, timeout_ms },
                }
            },
            Err(e) => {
                self.streaming = false;
                Turn { reply, stopped: Some(e), abort: true, next: NextMove::Exit }
            },
        }
    }

    /// A command came while the worker was waiting.
    pub fn on_command(&mut self, command: Command) -> (turn: Turn)
        requires
            old(self).valid(),
        ensures
            final(self).valid(),
            ({
                let (w, reply) = old(self).handled(command);
                if command == Command::Shutdown {
                    *final(self) == w && turn == (Turn {
                        reply: Some(reply),
                        stopped: None,
                        abort: false,
                        next: NextMove::Exit,
                    })
                } else {
                    (*final(self), turn) == w.going_on(Some(reply))
                }
            }),
    {
        let (reply, keep) = self.handle_command(command);
        if keep {
            self.proceed(Some(reply))
        } else {
            Turn { reply: Some(reply), stopped: None, abort: false, next: NextMove::Exit }
        }
    }

    /// A command came between two scans.
    pub fn on_queued_command(&mut self, command: Command) -> (turn: Turn)
        requires
            old(self).valid(),
        ensures
            final(self).valid(),
            ({
                let (w, reply) = old(self).handled(command);
                &&& *final(self) == w
                &&& turn == (Turn {
                    reply: Some(reply),
                    stopped: None,
                    abort: false,
                    next: if command == Command::Shutdown {
                        NextMove::Exit
                    } else {
                        NextMove::PollCommand
                    },
                })
            }),
    {
        let (reply, keep) = self.handle_command(command);
        let next = if keep {
            NextMove::PollCommand
        } else {
            NextMove::Exit
        };
        Turn { reply: Some(reply), stopped: None, abort: false, next }
    }

    /// A command ended a scan. Where the scan could not be ended the command is
    /// refused and the acquisition stops; otherwise the command is carried out.
    pub fn on_interrupted(&mut self, command: Command, ended: bool) -> (turn: Turn)
        requires
            old(self).valid(),
        ensures
            final(self).valid(),
            ended ==> ({
                let (w, reply) = old(self).handled(command);
                &&& *final(self) == w
                &&& turn == (Turn {
                    reply: Some(reply),
                    stopped: None,
                    abort: false,
                    next: if command == Command::Shutdown {
                        NextMove::Exit
                    } else {
                        NextMove::PollCommand
                    },
                })
            }),
            !ended ==> {
                &&& *final(self) == (Worker { streaming: false, ..*old(self) })
                &&& turn == (Turn {
                    reply: Some(Reply::Refused(CommandError::AbortFailed)),
                    stopped: if old(self).streaming {
                        Some(ScanFailure::Abort)
                    } else {
                        None
                    },
                    abort: false,
                    next: NextMove::Exit,
                })
            },
    {
        if ended {
            return self.on_queued_command(command);
        }
        let stopped = if self.streaming {
            Some(ScanFailure::Abort)
        } else {
            None
        };
        self.streaming = false;
        Turn {
            reply: Some(Reply::Refused(CommandError::AbortFailed)),
            stopped,
            abort: false,
            next: NextMove::Exit,
        }
    }

    /// A scan failed: the analyser is told to abort and the acquisition stops.
    pub fn on_failed(&mut self, failure: ScanFailure) -> (turn: Turn)
        requires
            old(self).valid(),
        ensures
            final(self).valid(),
            *final(self) == (Worker { streaming: false, ..*old(self) }),
            turn == (Turn {
                reply: None,
                stopped: if old(self).streaming {
                    Some(failure)
                } else {
                    None
                },
                abort: true,
                next: NextMove::Exit,
            }),
    {
        let stopped = if self.streaming {
            Some(failure)
        } else {
            None
        };
        self.streaming = false;
        Turn { reply: None, stopped, abort: true, next: NextMove::Exit }
    }

    /// A scan was read to its end: puts its levels on the display grid and says
    /// what to publish. A spectrum also says where the radio now is.
    pub fn on_complete(&self, trace: ScanTrace) -> (r: Result<Publication, ScanFailure>)
        requires
            self.valid(),
        ensures
            ({
                let f = trace.frequencies_hz@;
                let refused = f.len() < 2 || !scan::ascending(f);
                &&& r is Err <==> refused
                &&& r matches Err(e) ==> e == ScanFailure::BadGrid(
                    if f.len() == 0 {
                        GridError::NoFrequencies
                    } else if !scan::ascending(f) {
                        GridError::NotAscending
                    } else {
                        GridError::TooNarrow { points: 1 }
                    },
                )
                &&& r matches Ok(p) ==> {
                    &&& p.target == if self.direct_sweep is Some {
                        PowerTraceTarget::Sweep
                    } else {
                        PowerTraceTarget::Spectrum
                    }
                    &&& p.generation == match self.direct_sweep {
                        Some(c) => c.generation,
                        None => 0,
                    }
                    &&& p.levels == trace.levels
                    &&& p.rbw_hz == self.settings.rbw_hz
                    &&& p.tuned == if self.direct_sweep is Some {
                        None
                    } else {
                        Some((self.center_hz, self.span_hz))
                    }
                    &&& p.frequencies_hz@.len() == f.len()
                    &&& forall|i: int|
                        0 <= i < f.len() ==> #[trigger] p.frequencies_hz@[i] == f[0]
                            + scan::grid_offset(f.last() - f[0], f.len() - 1, i)
                }
            }),
    {
        match scan::display_frequencies(trace.frequencies_hz.as_slice()) {
            Err(e) => Err(ScanFailure::BadGrid(e)),
            Ok(frequencies_hz) => {
                let sweeping = self.direct_sweep.is_some();
                Ok(
                    Publication {
                        target: if sweeping {
                            PowerTraceTarget::Sweep
                        } else {
                            PowerTraceTarget::Spectrum
                        },
                        generation: match self.direct_sweep {
                            Some(c) => c.generation,
                            None => 0,
                        },
                        frequencies_hz,
                        levels: trace.levels,
                        rbw_hz: self.settings.rbw_hz,
                        tuned: if sweeping {
                            None
                        } else {
                            Some((self.center_hz, self.span_hz))
                        },
                    },
                )
            },
        }
    }
}

/// The line logged when an acquisition stops.
pub fn scan_error_text(message: &str) -> (out: String)
    ensures
        out@ == "tinySA scan error: "@ + message@,
{
    let mut t: Vec<char> = text::to_chars("tinySA scan error: ");
    text::push_str(&mut t, message);
    text::from_chars(t.as_slice())
}

/// A refused command changes nothing.
pub proof fn law_refusal_changes_nothing(w: Worker, command: Command)
    ensures
        w.handled(command).1 is Refused ==> w.handled(command).0 == w,
{
}

/// Every scan stays inside what the analyser can measure: a spectrum inside the
/// range of the chosen connector, a sweep inside the range of the model.
pub proof fn law_scans_stay_in_range(w: Worker)
    requires
        w.valid(),
    ensures
        w.direct_sweep is None ==> w.low() <= w.next_segment().start_hz
            <= w.next_segment().stop_hz <= w.high(),
        w.direct_sweep is Some ==> crate::hardware::tinysa::input::MIN_FREQUENCY_HZ
            <= w.next_segment().start_hz < w.next_segment().stop_hz <= w.model.max_hz(),
{
}

/// Planning the same scan twice in a row changes nothing: once tuned, the worker
/// stays tuned.
pub proof fn law_planning_settles(w: Worker)
    requires
        w.valid(),
    ensures
        w.planned().planned() == w.planned(),
        w.planned().next_segment() == w.next_segment(),
{
}

/// A granted span always has room for a scan: after a span was granted, the next
/// spectrum scan is wide enough.
pub proof fn law_granted_span_can_be_scanned(w: Worker, wanted: Option<i64>)
    requires
        w.valid(),
        w.direct_sweep is None,
        w.handled(Command::SetSpan(wanted)).1 is Span,
    ensures
        w.handled(Command::SetSpan(wanted)).0.wide_enough(),
{
}

/// A worker after commands, one after the other.
pub open spec fn after_commands(w: Worker, commands: Seq<Command>) -> Worker
    decreases commands.len(),
{
    if commands.len() == 0 {
        w
    } else {
        after_commands(w, commands.drop_last()).handled(commands.last()).0
    }
}

/// Stopping ends the acquisition, whatever state it was in: the answer is that it is
/// done, the analyser is no longer streaming, and the worker goes on to wait for a
/// command. Nothing else changes. Until the next start every question is answered
/// with no.
pub proof fn law_stop_ends_the_acquisition(
    w: Worker,
    commands: Seq<Command>,
    reply: Option<Reply>,
)
    requires
        forall|i: int| 0 <= i < commands.len() ==> #[trigger] commands[i] != Command::Start,
    ensures
        ({
            let (stopped, answer) = w.handled(Command::Stop);
            let later = after_commands(stopped, commands);
            &&& answer == Reply::Done
            &&& stopped == (Worker { streaming: false, ..w })
            &&& stopped.going_on(reply) == (
                stopped,
                Turn { reply, stopped: None, abort: false, next: NextMove::AwaitCommand },
            )
            &&& !later.streaming
            &&& later.handled(Command::IsStreaming).1 == Reply::Streaming(false)
            &&& later.going_on(reply).1.next == NextMove::AwaitCommand
        }),
    decreases commands.len(),
{
    if commands.len() > 0 {
        let head = commands.drop_last();
        assert forall|i: int| 0 <= i < head.len() implies #[trigger] head[i] != Command::Start by {
            assert(head[i] == commands[i]);
        }
        law_stop_ends_the_acquisition(w, head, reply);
        assert(commands.last() == commands[commands.len() - 1]);
    }
}

/// Starting begins an acquisition that goes on until it is stopped or shut down: every
/// question in between is answered with yes, and another start is refused. Nothing but
/// the acquisition changes.
pub proof fn law_start_begins_an_acquisition(w: Worker, commands: Seq<Command>)
    requires
        !w.streaming,
        forall|i: int|
            0 <= i < commands.len() ==> #[trigger] commands[i] != Command::Stop && commands[i]
                != Command::Shutdown,
    ensures
        ({
            let (started, answer) = w.handled(Command::Start);
            let later = after_commands(started, commands);
            &&& answer == Reply::Done
            &&& started == (Worker { streaming: true, ..w })
            &&& later.streaming
            &&& later.handled(Command::IsStreaming) == (later, Reply::Streaming(true))
            &&& later.handled(Command::Start) == (
                later,
                Reply::Refused(CommandError::AlreadyRunning),
            )
        }),
    decreases commands.len(),
{
    if commands.len() > 0 {
        let head = commands.drop_last();
        assert forall|i: int| 0 <= i < head.len() implies #[trigger] head[i] != Command::Stop
            && head[i] != Command::Shutdown by {
            assert(head[i] == commands[i]);
        }
        law_start_begins_an_acquisition(w, head);
        assert(commands.last() == commands[commands.len() - 1]);
    }
}

/// Shutting down ends the acquisition and changes nothing else.
pub proof fn law_shutdown_ends_the_acquisition(w: Worker)
    ensures
        w.handled(Command::Shutdown) == (Worker { streaming: false, ..w }, Reply::Done),
{
}

/// A question and a request for nothing change nothing.
pub proof fn law_questions_change_nothing(w: Worker)
    ensures
        w.handled(Command::IsStreaming) == (w, Reply::Streaming(w.streaming)),
        w.handled(Command::NoOp) == (w, Reply::Done),
{
}

/// Tuning goes to the wanted frequency where the analyser reaches it, and otherwise to
/// the frequency nearest to it that it does reach. Nothing else changes.
pub proof fn law_tuning_goes_as_near_as_it_can(w: Worker, hz: u64, other_hz: int)
    requires
        w.valid(),
        w.low() <= other_hz <= w.high(),
    ensures
        ({
            let (tuned, answer) = w.handled(Command::SetFrequency(hz));
            let at = tuned.center_hz as int;
            &&& answer == Reply::Done
            &&& tuned == (Worker { center_hz: tuned.center_hz, ..w })
            &&& w.low() <= at <= w.high()
            &&& w.low() <= hz <= w.high() ==> at == hz
            &&& hz <= at ==> at == hz || at <= other_hz
            &&& at <= hz ==> at == hz || other_hz <= at
        }),
{
}

/// A span is granted where it is positive: the nearest whole hertz where that lies
/// between one hertz a point and all the analyser reaches, and otherwise the end of
/// that range it lies beyond. What is answered is what is set, and nothing else is.
pub proof fn law_span_is_granted_as_near_as_it_can(w: Worker, wanted: Option<i64>)
    requires
        w.valid(),
    ensures
        ({
            let (set, answer) = w.handled(Command::SetSpan(wanted));
            let points = w.settings.points as int;
            let widest = w.high() - w.low();
            match wanted {
                Some(m) if m > 0 => {
                    &&& set == (Worker { span_hz: set.span_hz, ..w })
                    &&& answer matches Reply::Span { span_hz, rbw_hz }
                    &&& span_hz == set.span_hz
                    &&& w.settings.rbw_hz matches Some(hz) ==> rbw_hz == hz
                    &&& w.settings.rbw_hz is None ==> rbw_hz == 0
                    &&& points <= set.span_hz <= widest
                    &&& 1000 * points <= m <= 1000 * widest ==> -500 <= 1000 * set.span_hz - m
                        <= 500
                    &&& m < 1000 * points ==> set.span_hz == points
                    &&& m > 1000 * widest ==> set.span_hz == widest
                },
                _ => set == w && answer == Reply::Refused(
                    CommandError::BadSpan(SpanError::NotPositive),
                ),
            }
        }),
{
}

/// A sweep is taken where its ends ascend inside what the model measures, and then the
/// next scan runs from its start to its stop; taking it away brings back the spectrum
/// around where the radio is tuned. Nothing else changes.
pub proof fn law_sweep_is_scanned_from_end_to_end(w: Worker, c: DirectSweepConfig)
    requires
        w.valid(),
    ensures
        ({
            let (set, answer) = w.handled(Command::SetDirectSweep(Some(c)));
            let fits = crate::hardware::tinysa::input::MIN_FREQUENCY_HZ <= c.start_hz
                && c.start_hz < c.stop_hz && c.stop_hz <= w.model.max_hz();
            if fits {
                &&& answer == Reply::Done
                &&& set == (Worker { direct_sweep: Some(c), ..w })
                &&& set.next_segment() == (Segment {
                    start_hz: c.start_hz,
                    stop_hz: c.stop_hz,
                    points: w.settings.points,
                })
            } else {
                set == w && answer is Refused
            }
        }),
        w.handled(Command::SetDirectSweep(None)) == (
            Worker { direct_sweep: None, ..w },
            Reply::Done,
        ),
{
}

/// A spectrum scan is as wide as the span, or as the range where that is narrower. Its
/// middle lies within half a hertz of where the radio is tuned wherever the range has
/// room on both sides, and otherwise it ends where the range does.
pub proof fn law_spectrum_scan_is_centred(w: Worker)
    requires
        w.valid(),
        w.direct_sweep is None,
        w.low() <= w.center_hz <= w.high(),
    ensures
        ({
            let start = w.next_segment().start_hz as int;
            let stop = w.next_segment().stop_hz as int;
            let twice_off = start + stop - 2 * w.center_hz;
            &&& w.next_segment().points == w.settings.points
            &&& w.span_hz <= w.high() - w.low() ==> stop - start == w.span_hz
            &&& w.span_hz > w.high() - w.low() ==> start == w.low() && stop == w.high()
            &&& twice_off > 1 ==> start == w.low()
            &&& twice_off < 0 ==> stop == w.high()
        }),
{
}

/// An acquisition that goes on scans the next segment, and then the radio is tuned to
/// the middle of it. Where a hertz a point does not fit, the acquisition ends instead.
pub proof fn law_an_acquisition_scans_on(w: Worker, reply: Option<Reply>)
    requires
        w.valid(),
        w.streaming,
    ensures
        ({
            let (next, turn) = w.going_on(reply);
            let segment = w.next_segment();
            let width = segment.stop_hz - segment.start_hz;
            &&& turn.reply == reply
            &&& if width >= w.settings.points {
                &&& next.streaming && turn.stopped is None && !turn.abort
                &&& turn.next matches NextMove::Scan { segment: scanned, timeout_ms }
                &&& scanned == segment
                &&& timeout_ms >= 5_000
            } else {
                &&& !next.streaming && turn.abort && turn.next == NextMove::Exit
                &&& turn.stopped == Some(ScanFailure::TooNarrow { points: w.settings.points })
            }
            &&& next.span_hz == width
            &&& 0 <= segment.start_hz + segment.stop_hz - 2 * next.center_hz <= 1
            &&& next == (Worker {
                center_hz: next.center_hz,
                span_hz: next.span_hz,
                streaming: next.streaming,
                ..w
            })
        }),
{
    scan::law_silence_gives_a_scan_its_time(w.next_segment(), w.model, w.settings);
}

} // verus!
