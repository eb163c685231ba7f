//! Opening an analyser: silence the line, probe the version, read the identity,
//! and put the analyser into its automatic controls.

use crate::hardware::tinysa::abort::{PortEvent, MAX_RESPONSE_BYTES};
use crate::hardware::tinysa::input::BasicInput;
use crate::hardware::tinysa::protocol;
use crate::hardware::tinysa::protocol::{Identity, IdentityError, Model};
use crate::hardware::tinysa::scan;
use crate::hardware::tinysa::scan::RESPONSE_TIMEOUT_MS;
use crate::text;
use vstd::prelude::*;

verus! {

/// How long the line must be quiet before the first command.
pub const DRAIN_QUIET_MS: u64 = 200;

/// How often the version is asked for.
pub const VERSION_ATTEMPTS: u8 = 3;

/// Why a text reply could not be read.
#[derive(Clone, Copy, Debug, PartialEq, Eq, Structural)]
pub enum ReplyError {
    TooLong,
    TimedOut,
    Disconnected,
    ReadFailed,
}

impl ReplyError {
    pub open spec fn text(self) -> Seq<char> {
        match self {
            ReplyError::TooLong => "tinySA response exceeded 131072 bytes"@,
            ReplyError::TimedOut => "timed out waiting for the tinySA shell prompt"@,
            ReplyError::Disconnected => "tinySA disconnected while returning a response"@,
            ReplyError::ReadFailed => "failed to read tinySA response"@,
        }
    }

    /// The sentence shown for the error.
    pub fn message(self) -> (t: &'static str)
        ensures
            t@ == self.text(),
    {
        match self {
            ReplyError::TooLong => "tinySA response exceeded 131072 bytes",
            ReplyError::TimedOut => "timed out waiting for the tinySA shell prompt",
            ReplyError::Disconnected => "tinySA disconnected while returning a response",
            ReplyError::ReadFailed => "failed to read tinySA response",
        }
    }
}

/// What to do next with a reply.
#[derive(Clone, Copy, Debug, PartialEq, Eq, Structural)]
pub enum ReplyStep {
    ReadMore,
    Done,
    Failed(ReplyError),
}

/// A text reply being read up to the shell prompt.
pub struct ReplyReader {
    pub response: Vec<u8>,
}

impl ReplyReader {
    /// Nothing has been read.
    pub fn new() -> (r: Self)
        ensures
            r.response@.len() == 0,
    {
        ReplyReader { response: Vec::new() }
    }

    /// Takes what a read gave. A reply ends at the prompt, may hold so many bytes
    /// and no more, and may not stay silent for longer than the timeout.
    pub fn feed(&mut self, event: PortEvent, timeout_ms: u128) -> (step: ReplyStep)
        requires
            old(self).response@.len() <= MAX_RESPONSE_BYTES,
        ensures
            match event {
                PortEvent::Byte(b) => {
                    &&& final(self).response@ == old(self).response@.push(b)
                    &&& step == if protocol::ends_with(final(self).response@, protocol::prompt()) {
                        ReplyStep::Done
                    } else if final(self).response@.len() > MAX_RESPONSE_BYTES {
                        ReplyStep::Failed(ReplyError::TooLong)
                    } else {
                        ReplyStep::ReadMore
                    }
                },
                PortEvent::Silent(ms) => final(self).response == old(self).response && step
                    == if ms >= timeout_ms {
                    ReplyStep::Failed(ReplyError::TimedOut)
                } else {
                    ReplyStep::ReadMore
                },
                PortEvent::Interrupted => final(self).response == old(self).response && step
                    == ReplyStep::ReadMore,
                PortEvent::Disconnected => final(self).response == old(self).response && step
                    == ReplyStep::Failed(ReplyError::Disconnected),
                PortEvent::Failed => final(self).response == old(self).response && step
                    == ReplyStep::Failed(ReplyError::ReadFailed),
            },
    {
        match event {
            PortEvent::Byte(b) => {
                self.response.push(b);
                if protocol::at_prompt(self.response.as_slice()) {
                    ReplyStep::Done
                } else if self.response.len() > MAX_RESPONSE_BYTES {
                    ReplyStep::Failed(ReplyError::TooLong)
                } else {
                    ReplyStep::ReadMore
                }
            },
            PortEvent::Silent(ms) => {
                if ms >= timeout_ms {
                    ReplyStep::Failed(ReplyError::TimedOut)
                } else {
                    ReplyStep::ReadMore
                }
            },
            PortEvent::Interrupted => ReplyStep::ReadMore,
            PortEvent::Disconnected => ReplyStep::Failed(ReplyError::Disconnected),
            PortEvent::Failed => ReplyStep::Failed(ReplyError::ReadFailed),
        }
    }
}

/// What a read gave while the line is being silenced.
#[derive(Clone, Copy, Debug, PartialEq, Eq, Structural)]
pub enum LineEvent {
    /// So many bytes; none at all is the end of the line.
    Data(usize),
    /// Nothing yet; so many milliseconds since the last byte.
    Silent(u64),
    Interrupted,
    Failed,
}

/// What to do next with the line.
#[derive(Clone, Copy, Debug, PartialEq, Eq, Structural)]
pub enum LineStep {
    ReadMore,
    Quiet,
    /// The line kept talking.
    NeverQuiet,
    ReadFailed,
}

/// What a read says of the line.
pub open spec fn line_step(event: LineEvent, since_start_ms: u64) -> LineStep {
    if event == LineEvent::Data(0) || (event matches LineEvent::Silent(ms) && ms
        >= DRAIN_QUIET_MS) {
        LineStep::Quiet
    } else if event == LineEvent::Failed {
        LineStep::ReadFailed
    } else if since_start_ms >= RESPONSE_TIMEOUT_MS {
        LineStep::NeverQuiet
    } else {
        LineStep::ReadMore
    }
}

/// Decides, after each read, whether the line has fallen silent. It has at its
/// end or after a pause, and it must before the reply timeout has passed.
pub fn drain_startup(event: LineEvent, since_start_ms: u64) -> (step: LineStep)
    ensures
        step == line_step(event, since_start_ms),
{
    match event {
        LineEvent::Data(0) => return LineStep::Quiet,
        LineEvent::Data(_) => {},
        LineEvent::Silent(ms) => {
            if ms >= DRAIN_QUIET_MS {
                return LineStep::Quiet;
            }
        },
        LineEvent::Interrupted => {},
        LineEvent::Failed => return LineStep::ReadFailed,
    }
    if since_start_ms >= RESPONSE_TIMEOUT_MS {
        LineStep::NeverQuiet
    } else {
        LineStep::ReadMore
    }
}

/// Which command of the startup is outstanding.
#[derive(Clone, Copy, Debug, PartialEq, Eq, Structural)]
pub enum Stage {
    /// So many attempts at the version are left after this one.
    Version(u8),
    OutputOff,
    Info,
    Help,
    Zero,
    AbortOn,
    Mode,
    /// This one of the settings.
    Setting(usize),
    Ready,
}

/// Why an analyser could not be opened.
#[derive(Clone, Copy, Debug, PartialEq, Eq, Structural)]
pub enum StartupError {
    /// The device answered, but not as a tinySA.
    NotTinySa,
    /// The command that was outstanding failed.
    CommandFailed,
    BadIdentity(IdentityError),
    /// The HIGH connector was asked for on an Ultra.
    HighOnUltra,
}

impl StartupError {
    pub open spec fn text(self, failure: Seq<char>) -> Seq<char> {
        match self {
            StartupError::NotTinySa => "serial device did not identify as a tinySA"@,
            StartupError::CommandFailed => failure,
            StartupError::BadIdentity(e) => e.text(),
            StartupError::HighOnUltra => "tinySA HIGH input selection applies only to the basic model"@,
        }
    }

    /// The sentence shown for the error; `failure` says how a command failed.
    pub fn message(self, failure: &str) -> (out: String)
        ensures
            out@ == self.text(failure@),
    {
        let t: &str = match self {
            StartupError::NotTinySa => "serial device did not identify as a tinySA",
            StartupError::CommandFailed => failure,
            StartupError::BadIdentity(e) => e.message(),
            StartupError::HighOnUltra => "tinySA HIGH input selection applies only to the basic model",
        };
        let chars: Vec<char> = text::to_chars(t);
        text::from_chars(chars.as_slice())
    }
}

/// What to do next.
#[derive(Clone, Copy, Debug, PartialEq, Eq, Structural)]
pub enum StartupStep {
    Send,
    /// Silence the line first; whether that worked does not matter.
    DrainAndSend,
    Ready,
    /// Silence the line, then give up.
    DrainAndFail(StartupError),
    Failed(StartupError),
}

/// An analyser being opened.
pub struct Startup {
    pub basic_input: BasicInput,
    pub stage: Stage,
    pub version: Vec<u8>,
    pub info: Vec<u8>,
    pub help: Vec<u8>,
    /// What the analyser says of itself, once it has been asked.
    pub identity: Option<Identity>,
}

/// Whether a reply to `version` names a tinySA, as far as it can be read.
pub open spec fn names_tinysa(reply: Seq<char>) -> bool {
    text::has(text::lower(reply), "tinysa"@)
}

/// Whether a decoded reply to `version` names a tinySA.
pub fn mentions_tinysa(reply: &[char]) -> (r: bool)
    ensures
        r == names_tinysa(reply@),
{
    let folded = text::to_lower(reply);
    let name = text::to_chars("tinysa");
    text::contains(folded.as_slice(), name.as_slice())
}

impl Startup {
    pub open spec fn valid(self) -> bool {
        match self.stage {
            Stage::AbortOn | Stage::Mode | Stage::Ready => self.identity is Some,
            Stage::Setting(i) => self.identity matches Some(id) && i < scan::startup_commands(
                id.model,
            ).len(),
            _ => self.identity is None,
        }
    }

    /// The command that is outstanding.
    pub open spec fn command(self) -> Seq<char> {
        match self.stage {
            Stage::Version(_) => "version"@,
            Stage::OutputOff => "output off"@,
            Stage::Info => "info"@,
            Stage::Help => "help"@,
            Stage::Zero => "zero"@,
            Stage::AbortOn => "abort on"@,
            Stage::Mode => if self.identity->Some_0.model.ultra() {
                "mode input"@
            } else {
                self.basic_input.command()
            },
            Stage::Setting(i) => scan::startup_commands(self.identity->Some_0.model)[i as int],
            Stage::Ready => ""@,
        }
    }

    /// The stage after the outstanding one, where its command succeeded.
    pub open spec fn next_stage(self, model: Model) -> Stage {
        match self.stage {
            Stage::Version(_) => Stage::OutputOff,
            Stage::OutputOff => Stage::Info,
            Stage::Info => Stage::Help,
            Stage::Help => Stage::Zero,
            Stage::Zero => Stage::AbortOn,
            Stage::AbortOn => Stage::Mode,
            Stage::Mode => Stage::Setting(0),
            Stage::Setting(i) => if i + 1 < scan::startup_commands(model).len() {
                Stage::Setting((i + 1) as usize)
            } else {
                Stage::Ready
            },
            Stage::Ready => Stage::Ready,
        }
    }

    /// Starts opening an analyser. The line is silenced before the first command.
    pub fn new(basic_input: BasicInput) -> (s: Self)
        ensures
            s.valid(),
            s.basic_input == basic_input,
            s.stage == Stage::Version((VERSION_ATTEMPTS - 1) as u8),
            s.version@.len() == 0 && s.info@.len() == 0 && s.help@.len() == 0,
            s.identity is None,
    {
        Startup {
            basic_input,
            stage: Stage::Version(VERSION_ATTEMPTS - 1),
            version: Vec::new(),
            info: Vec::new(),
            help: Vec::new(),
            identity: None,
        }
    }

    /// The command to send.
    pub fn next_command(&self) -> (t: &'static str)
        requires
            self.valid(),
        ensures
            t@ == self.command(),
    {
        match self.stage {
            Stage::Version(_) => "version",
            Stage::OutputOff => "output off",
            Stage::Info => "info",
            Stage::Help => "help",
            Stage::Zero => "zero",
            Stage::AbortOn => "abort on",
            Stage::Mode => {
                let model = self.model();
                scan::input_mode_command(model, self.basic_input)
            },
            Stage::Setting(i) => {
                let model = self.model();
                let (_, commands) = scan::startup_settings(model);
                assert(commands@.map_values(|c: &str| c@)[i as int] == commands@[i as int]@);
                commands[i]
            },
            Stage::Ready => "",
        }
    }

    /// The model, once it is known.
    fn model(&self) -> (m: Model)
        requires
            self.identity is Some,
        ensures
            m == self.identity->Some_0.model,
    {
        match &self.identity {
            Some(id) => id.model,
            None => Model::Basic,
        }
    }

    /// The outstanding command failed. Only the version is asked for again.
    pub fn on_failure(&mut self) -> (step: StartupStep)
        requires
            old(self).valid(),
            old(self).stage != Stage::Ready,
        ensures
            final(self).valid(),
            final(self).basic_input == old(self).basic_input,
            final(self).identity == old(self).identity,
            final(self).version == old(self).version,
            final(self).info == old(self).info,
            final(self).help == old(self).help,
            match old(self).stage {
                Stage::Version(left) => if left > 0 {
                    &&& final(self).stage == Stage::Version((left - 1) as u8)
                    &&& step == StartupStep::DrainAndSend
                } else {
                    &&& final(self).stage == old(self).stage
                    &&& step == StartupStep::DrainAndFail(StartupError::CommandFailed)
                },
                _ => final(self).stage == old(self).stage && step == StartupStep::Failed(
                    StartupError::CommandFailed,
                ),
            },
    {
        match self.stage {
            Stage::Version(left) => {
                if left > 0 {
                    self.stage = Stage::Version(left - 1);
                    StartupStep::DrainAndSend
                } else {
                    StartupStep::DrainAndFail(StartupError::CommandFailed)
                }
            },
            _ => StartupStep::Failed(StartupError::CommandFailed),
        }
    }

    /// The device answered `version`: decoded, the answer names a tinySA or the
    /// version is asked for again.
    pub fn on_version(&mut self, body: Vec<u8>, decoded: &[char]) -> (step: StartupStep)
        requires
            old(self).valid(),
            old(self).stage is Version,
        ensures
            final(self).valid(),
            final(self).basic_input == old(self).basic_input,
            final(self).identity is None,
            final(self).info == old(self).info,
            final(self).help == old(self).help,
            if names_tinysa(decoded@) {
                &&& final(self).stage == Stage::OutputOff
                &&& final(self).version == body
                &&& step == StartupStep::Send
            } else {
                &&& final(self).version == old(self).version
                &&& old(self).stage matches Stage::Version(left) && if left > 0 {
                    final(self).stage == Stage::Version((left - 1) as u8) && step
                        == StartupStep::DrainAndSend
                } else {
                    final(self).stage == old(self).stage && step == StartupStep::DrainAndFail(
                        StartupError::NotTinySa,
                    )
                }
            },
    {
        if mentions_tinysa(decoded) {
            self.version = body;
            self.stage = Stage::OutputOff;
            return StartupStep::Send;
        }
        match self.stage {
            Stage::Version(left) => {
                if left > 0 {
                    self.stage = Stage::Version(left - 1);
                    StartupStep::DrainAndSend
                } else {
                    StartupStep::DrainAndFail(StartupError::NotTinySa)
                }
            },
            _ => StartupStep::Failed(StartupError::NotTinySa),
        }
    }

    /// The device answered `version` with these bytes.
    pub fn on_version_reply(&mut self, body: Vec<u8>) -> (step: StartupStep)
        requires
            old(self).valid(),
            old(self).stage is Version,
        ensures
            final(self).valid(),
            final(self).basic_input == old(self).basic_input,
            final(self).identity is None,
            final(self).info == old(self).info,
            final(self).help == old(self).help,
            if names_tinysa(protocol::lossy_utf8(body@)) {
                &&& final(self).stage == Stage::OutputOff
                &&& final(self).version == body
                &&& step == StartupStep::Send
            } else {
                &&& final(self).version == old(self).version
                &&& old(self).stage matches Stage::Version(left) && if left > 0 {
                    final(self).stage == Stage::Version((left - 1) as u8) && step
                        == StartupStep::DrainAndSend
                } else {
                    final(self).stage == old(self).stage && step == StartupStep::DrainAndFail(
                        StartupError::NotTinySa,
                    )
                }
            },
    {
        let shown = protocol::lossy_text(body.as_slice());
        let decoded = text::to_chars(shown.as_str());
        self.on_version(body, decoded.as_slice())
    }

    /// The outstanding command after the version succeeded with this reply.
    pub fn on_reply(&mut self, body: Vec<u8>) -> (step: StartupStep)
        requires
            old(self).valid(),
            !(old(self).stage is Version),
            old(self).stage != Stage::Ready,
        ensures
            final(self).basic_input == old(self).basic_input,
            final(self).version == old(self).version,
            step is Ready || step is Send ==> final(self).valid(),
            old(self).stage == Stage::Info ==> final(self).info == body && step
                == StartupStep::Send,
            old(self).stage == Stage::Help ==> final(self).help == body && step
                == StartupStep::Send,
            old(self).stage == Stage::OutputOff ==> step == StartupStep::Send,
            old(self).stage != Stage::Info ==> final(self).info == old(self).info,
            old(self).stage != Stage::Help ==> final(self).help == old(self).help,
            old(self).stage == Stage::Zero ==> {
                let fault = protocol::identity_fault(
                    old(self).version@,
                    old(self).info@,
                    old(self).help@,
                    body@,
                );
                let ultra = protocol::model_of(
                    protocol::combined_upper(
                        vstd::utf8::decode_utf8(old(self).version@),
                        vstd::utf8::decode_utf8(old(self).info@),
                    ),
                ).ultra();
                &&& step == match fault {
                    Some(e) => StartupStep::Failed(StartupError::BadIdentity(e)),
                    None => if ultra && old(self).basic_input == BasicInput::High {
                        StartupStep::Failed(StartupError::HighOnUltra)
                    } else {
                        StartupStep::Send
                    },
                }
                &&& step == StartupStep::Send ==> {
                    &&& final(self).identity matches Some(id)
                    &&& protocol::identifies(
                        id,
                        vstd::utf8::decode_utf8(old(self).version@),
                        vstd::utf8::decode_utf8(old(self).info@),
                        vstd::utf8::decode_utf8(old(self).help@),
                        vstd::utf8::decode_utf8(body@),
                    )
                }
            },
            old(self).stage != Stage::Zero ==> {
                &&& final(self).identity == old(self).identity
                &&& step == if final(self).stage == Stage::Ready {
                    StartupStep::Ready
                } else {
                    StartupStep::Send
                }
            },
            step is Ready || step is Send ==> final(self).stage == old(self).next_stage(
                final(self).identity->Some_0.model,
            ),
    {
        match self.stage {
            Stage::OutputOff => {
                self.stage = Stage::Info;
                StartupStep::Send
            },
            Stage::Info => {
                self.info = body;
                self.stage = Stage::Help;
                StartupStep::Send
            },
            Stage::Help => {
                self.help = body;
                self.stage = Stage::Zero;
                StartupStep::Send
            },
            Stage::Zero => {
                match protocol::parse_identity(
                    self.version.as_slice(),
                    self.info.as_slice(),
                    self.help.as_slice(),
                    body.as_slice(),
                ) {
                    Err(e) => StartupStep::Failed(StartupError::BadIdentity(e)),
                    Ok(id) => {
                        if id.model.is_ultra() && self.basic_input == BasicInput::High {
                            return StartupStep::Failed(StartupError::HighOnUltra);
                        }
                        self.identity = Some(id);
                        self.stage = Stage::AbortOn;
                        StartupStep::Send
                    },
                }
            },
            Stage::AbortOn => {
                self.stage = Stage::Mode;
                StartupStep::Send
            },
            Stage::Mode => {
                self.stage = Stage::Setting(0);
                StartupStep::Send
            },
            Stage::Setting(i) => {
                let model = self.model();
                let (_, commands) = scan::startup_settings(model);
                assert(commands@.len() == scan::startup_commands(model).len()) by {
                    assert(commands@.map_values(|c: &str| c@).len() == commands@.len());
                }
                if i + 1 < commands.len() {
                    self.stage = Stage::Setting(i + 1);
                    StartupStep::Send
                } else {
                    self.stage = Stage::Ready;
                    StartupStep::Ready
                }
            },
            _ => StartupStep::Failed(StartupError::CommandFailed),
        }
    }
}

/// A startup in the stage it reaches after so many commands that succeeded.
pub open spec fn after_successes(s: Startup, model: Model, n: nat) -> Startup
    decreases n,
{
    if n == 0 {
        s
    } else {
        let before = after_successes(s, model, (n - 1) as nat);
        Startup { stage: before.next_stage(model), ..before }
    }
}

/// Opening an analyser asks who it is, with its output off before anything else is asked
/// of it, then lets its scans be aborted, chooses what it measures, and hands it its
/// automatic controls, in this order; and then it is ready.
pub proof fn law_opening_asks_in_order(s: Startup, id: Identity, n: nat)
    requires
        s.stage is Version,
        s.identity == Some(id),
    ensures
        ({
            let asked = if id.model.ultra() {
                seq![
                    "version"@,
                    "output off"@,
                    "info"@,
                    "help"@,
                    "zero"@,
                    "abort on"@,
                    "mode input"@,
                    "ultra on"@,
                    "ultra auto"@,
                    "rbw auto"@,
                    "attenuate auto"@,
                    "lna off"@,
                    "lna2 auto"@,
                    "agc auto"@,
                    "spur auto"@,
                ]
            } else {
                seq![
                    "version"@,
                    "output off"@,
                    "info"@,
                    "help"@,
                    "zero"@,
                    "abort on"@,
                    if s.basic_input == BasicInput::Low {
                        "mode low input"@
                    } else {
                        "mode high input"@
                    },
                    "rbw auto"@,
                    "attenuate auto"@,
                    "spur on"@,
                ]
            };
            let there = after_successes(s, id.model, n);
            &&& n < asked.len() ==> there.command() == asked[n as int] && there.stage != Stage::Ready
            &&& n >= asked.len() ==> there.stage == Stage::Ready
        }),
    decreases n,
{
    lemma_stage_after(s, id, n);
}

proof fn lemma_stage_after(s: Startup, id: Identity, n: nat)
    requires
        s.stage is Version,
        s.identity == Some(id),
    ensures
        ({
            let t = after_successes(s, id.model, n);
            &&& t == (Startup { stage: t.stage, ..s })
            &&& t.stage == if n == 0 {
                s.stage
            } else if n == 1 {
                Stage::OutputOff
            } else if n == 2 {
                Stage::Info
            } else if n == 3 {
                Stage::Help
            } else if n == 4 {
                Stage::Zero
            } else if n == 5 {
                Stage::AbortOn
            } else if n == 6 {
                Stage::Mode
            } else if n < 7 + scan::startup_commands(id.model).len() {
                Stage::Setting((n - 7) as usize)
            } else {
                Stage::Ready
            }
        }),
    decreases n,
{
    assert(scan::startup_commands(id.model).len() == if id.model.ultra() {
        8nat
    } else {
        3nat
    });
    if n > 0 {
        lemma_stage_after(s, id, (n - 1) as nat);
    }
}

/// A line is quiet at its end and after a fifth of a second of silence; one that talks on
/// for five seconds never is, and until then it is read.
pub proof fn law_a_line_falls_quiet_or_talks_on(event: LineEvent, since_start_ms: u64)
    ensures
        line_step(event, since_start_ms) == LineStep::Quiet <==> event == LineEvent::Data(0) || (
        event matches LineEvent::Silent(ms) && ms >= 200),
        line_step(event, since_start_ms) == LineStep::NeverQuiet ==> since_start_ms >= 5_000,
        line_step(event, since_start_ms) == LineStep::ReadMore ==> since_start_ms < 5_000,
        line_step(event, since_start_ms) == LineStep::ReadFailed <==> event == LineEvent::Failed,
{
}

} // verus!
