//! Reading the reply to one scan, byte by byte.
//!
//! The analyser echoes the command, sends one frame of tagged records, and
//! prints its prompt. Nothing else may stand between them.

use crate::hardware::tinysa::abort::{PortEvent, ScanDrain};
use crate::hardware::tinysa::protocol;
use crate::hardware::tinysa::protocol::FrameError;
use crate::hardware::tinysa::scan;
use crate::hardware::tinysa::scan::Segment;
use crate::text;
use vstd::prelude::*;

verus! {

/// The command that starts a scan.
pub open spec fn scan_command(segment: Segment) -> Seq<char> {
    "scanraw "@ + text::decimal(segment.start_hz as nat) + " "@ + text::decimal(
        segment.stop_hz as nat,
    ) + " "@ + text::decimal(segment.points as nat) + " 1"@
}

/// A text of ASCII characters as bytes.
pub open spec fn ascii(s: Seq<char>) -> Seq<u8> {
    s.map_values(|c: char| c as u8)
}

/// What the analyser sends before the first record.
pub open spec fn prelude(segment: Segment) -> Seq<u8> {
    ascii(scan_command(segment)) + seq![0x0du8, 0x0au8, 0x7bu8]
}

/// The bytes of the command that starts a scan, without the return that sends it.
pub fn scan_command_bytes(segment: Segment) -> (out: Vec<u8>)
    ensures
        out@ == ascii(scan_command(segment)),
{
    let mut t: Vec<char> = text::to_chars("scanraw ");
    text::push_decimal(&mut t, segment.start_hz);
    text::push_str(&mut t, " ");
    text::push_decimal(&mut t, segment.stop_hz);
    text::push_str(&mut t, " ");
    text::push_decimal(&mut t, segment.points as u64);
    text::push_str(&mut t, " 1");
    assert(t@ == scan_command(segment));
    let mut out: Vec<u8> = Vec::new();
    let mut i: usize = 0;
    while i < t.len()
        invariant
            i <= t@.len(),
            out@ == ascii(t@.take(i as int)),
        decreases t@.len() - i,
    {
        out.push(t[i] as u8);
        assert(out@ == ascii(t@.take(i + 1)));
        i += 1;
    }
    assert(t@.take(t@.len() as int) == t@);
    out
}

/// Which part of the reply the next byte belongs to.
#[derive(Clone, Copy, Debug, PartialEq, Eq, Structural)]
pub enum ReadPhase {
    /// This byte of the echo and the opening tag.
    Prelude(usize),
    /// The tag of this record.
    Tag(u32),
    /// So many bytes of this record's level.
    Level { index: u32, left: u8 },
    /// The closing tag.
    Close,
    /// This byte of the prompt.
    Prompt(usize),
    Finished,
}

/// Why a scan was given up.
#[derive(Clone, Copy, Debug, PartialEq, Eq, Structural)]
pub enum ScanError {
    BadPrelude { at: usize, byte: u8, expected: u8 },
    Closed { index: u32, points: u32 },
    BadTag { index: u32, tag: u8 },
    BadFrame(FrameError),
    TextAfterFrame { byte: u8 },
    TimedOut,
    Disconnected,
    ReadFailed,
}

impl ScanError {
    pub open spec fn text(self) -> Seq<char> {
        match self {
            ScanError::BadPrelude { at, byte, expected } => "tinySA scan prelude byte "@
                + text::decimal(at as nat) + " was 0x"@ + text::hex_byte(byte)
                + ", expected 0x"@ + text::hex_byte(expected),
            ScanError::Closed { index, points } => (FrameError::Closed { index, points }).text(),
            ScanError::BadTag { index, tag } => (FrameError::BadTag { index, tag }).text(),
            ScanError::BadFrame(e) => e.text(),
            ScanError::TextAfterFrame { byte } => "tinySA emitted text after a scan frame: 0x"@
                + text::hex_byte(byte) + " before the shell prompt"@,
            ScanError::TimedOut => "tinySA scan timed out"@,
            ScanError::Disconnected => "tinySA disconnected during a scan"@,
            ScanError::ReadFailed => "failed to read tinySA scan"@,
        }
    }

    /// The sentence shown for the error.
    pub fn message(self) -> (out: String)
        ensures
            out@ == self.text(),
    {
        let mut t: Vec<char> = Vec::new();
        match self {
            ScanError::BadPrelude { at, byte, expected } => {
                text::push_str(&mut t, "tinySA scan prelude byte ");
                text::push_decimal(&mut t, at as u64);
                text::push_str(&mut t, " was 0x");
                let got = text::hex_text(byte);
                text::push_all(&mut t, got.as_slice());
                text::push_str(&mut t, ", expected 0x");
                let wanted = text::hex_text(expected);
                text::push_all(&mut t, wanted.as_slice());
            },
            ScanError::Closed { index, points } => {
                return (FrameError::Closed { index, points }).message();
            },
            ScanError::BadTag { index, tag } => {
                return (FrameError::BadTag { index, tag }).message();
            },
            ScanError::BadFrame(e) => {
                return e.message();
            },
            ScanError::TextAfterFrame { byte } => {
                text::push_str(&mut t, "tinySA emitted text after a scan frame: 0x");
                let got = text::hex_text(byte);
                text::push_all(&mut t, got.as_slice());
                text::push_str(&mut t, " before the shell prompt");
            },
            ScanError::TimedOut => text::push_str(&mut t, "tinySA scan timed out"),
            ScanError::Disconnected => text::push_str(&mut t, "tinySA disconnected during a scan"),
            ScanError::ReadFailed => text::push_str(&mut t, "failed to read tinySA scan"),
        }
        assert(t@ == self.text());
        text::from_chars(t.as_slice())
    }
}

/// What to do next.
#[derive(Clone, Copy, Debug, PartialEq, Eq, Structural)]
pub enum ReadStep {
    ReadMore,
    Done,
    Failed(ScanError),
}

/// A scan being read.
pub struct ScanReader {
    segment: Segment,
    zero_dbm: i32,
    expected: Vec<u8>,
    frame: Vec<u8>,
    levels: Vec<i64>,
    phase: ReadPhase,
}

/// What a completed scan measured.
pub struct ScanTrace {
    pub frequencies_hz: Vec<u64>,
    pub levels: Vec<i64>,
    pub center_hz: u64,
    pub span_hz: u64,
}

/// Where the reading of records goes on.
pub open spec fn next_record(index: int, points: u32) -> ReadPhase {
    if index < points {
        ReadPhase::Tag(index as u32)
    } else {
        ReadPhase::Close
    }
}

impl ScanReader {
    pub closed spec fn segment(self) -> Segment {
        self.segment
    }

    pub closed spec fn zero(self) -> i32 {
        self.zero_dbm
    }

    /// The frame as far as it has been read.
    pub closed spec fn frame(self) -> Seq<u8> {
        self.frame@
    }

    pub closed spec fn phase(self) -> ReadPhase {
        self.phase
    }

    /// The levels of the frame, once it is complete.
    pub closed spec fn levels(self) -> Seq<i64> {
        self.levels@
    }

    /// All bytes read so far, in order.
    pub open spec fn consumed(self) -> Seq<u8> {
        match self.phase() {
            ReadPhase::Prelude(i) => prelude(self.segment()).take(i as int),
            ReadPhase::Prompt(i) => prelude(self.segment()).drop_last() + self.frame()
                + protocol::prompt().take(i as int),
            ReadPhase::Finished => prelude(self.segment()).drop_last() + self.frame()
                + protocol::prompt(),
            _ => prelude(self.segment()).drop_last() + self.frame(),
        }
    }

    /// Whether the levels read are those of the frame.
    pub open spec fn holds_levels(self) -> bool {
        &&& protocol::frame_fault(self.frame(), self.segment().points) is None
        &&& self.levels().len() == self.segment().points
        &&& forall|i: int|
            0 <= i < self.segment().points ==> #[trigger] self.levels()[i]
                == protocol::record_level(self.frame(), i, self.zero())
    }

    pub open spec fn opened(self) -> bool {
        self.frame().len() > 0 && self.frame()[0] == 0x7b
    }

    pub closed spec fn valid(self) -> bool {
        &&& self.segment.start_hz <= self.segment.stop_hz <= 0x1000_0000_0000_0000
        &&& self.expected@ == prelude(self.segment)
        &&& match self.phase {
            ReadPhase::Prelude(i) => i < self.expected@.len() && self.frame@.len() == 0,
            ReadPhase::Tag(index) => {
                &&& index < self.segment.points
                &&& self.opened()
                &&& self.frame@.len() == 1 + 3 * index
            },
            ReadPhase::Level { index, left } => {
                &&& index < self.segment.points
                &&& 1 <= left <= 2
                &&& self.opened()
                &&& self.frame@.len() == 1 + 3 * index + (3 - left)
            },
            ReadPhase::Close => {
                &&& self.opened()
                &&& self.frame@.len() == 1 + 3 * self.segment.points
            },
            ReadPhase::Prompt(i) => i < 4 && self.opened() && self.holds_levels(),
            ReadPhase::Finished => self.opened() && self.holds_levels(),
        }
    }

    /// The error a byte is refused with, where it is refused.
    pub open spec fn refusal(self, byte: u8) -> Option<ScanError> {
        match self.phase() {
            ReadPhase::Prelude(i) => {
                let wanted = prelude(self.segment())[i as int];
                if byte != wanted {
                    Some(ScanError::BadPrelude { at: i, byte, expected: wanted })
                } else {
                    None
                }
            },
            ReadPhase::Tag(index) => if byte == 0x7d {
                Some(ScanError::Closed { index, points: self.segment().points })
            } else if byte != 0x78 {
                Some(ScanError::BadTag { index, tag: byte })
            } else {
                None
            },
            ReadPhase::Level { index, left } => None,
            ReadPhase::Close => match protocol::frame_fault(
                self.frame().push(byte),
                self.segment().points,
            ) {
                Some(e) => Some(ScanError::BadFrame(e)),
                None => None,
            },
            ReadPhase::Prompt(i) => if byte != protocol::prompt()[i as int] {
                Some(ScanError::TextAfterFrame { byte })
            } else {
                None
            },
            ReadPhase::Finished => None,
        }
    }

    /// The phase after an accepted byte.
    pub open spec fn phase_after(self) -> ReadPhase {
        match self.phase() {
            ReadPhase::Prelude(i) => if i + 1 == prelude(self.segment()).len() {
                next_record(0, self.segment().points)
            } else {
                ReadPhase::Prelude((i + 1) as usize)
            },
            ReadPhase::Tag(index) => ReadPhase::Level { index, left: 2 },
            ReadPhase::Level { index, left } => if left == 1 {
                next_record(index + 1, self.segment().points)
            } else {
                ReadPhase::Level { index, left: 1 }
            },
            ReadPhase::Close => ReadPhase::Prompt(0),
            ReadPhase::Prompt(i) => if i == 3 {
                ReadPhase::Finished
            } else {
                ReadPhase::Prompt((i + 1) as usize)
            },
            ReadPhase::Finished => ReadPhase::Finished,
        }
    }

    /// Starts reading the reply to a scan of the segment.
    pub fn new(segment: Segment, zero_dbm: i32) -> (s: Self)
        requires
            segment.start_hz <= segment.stop_hz <= 0x1000_0000_0000_0000,
        ensures
            s.valid(),
            s.segment() == segment,
            s.zero() == zero_dbm,
            s.phase() == ReadPhase::Prelude(0),
            s.consumed() == Seq::<u8>::empty(),
    {
        let mut expected = scan_command_bytes(segment);
        expected.push(0x0du8);
        expected.push(0x0au8);
        expected.push(0x7bu8);
        assert(expected@ == prelude(segment));
        let s = ScanReader {
            segment,
            zero_dbm,
            expected,
            frame: Vec::new(),
            levels: Vec::new(),
            phase: ReadPhase::Prelude(0),
        };
        assert(s.consumed() == Seq::<u8>::empty());
        s
    }

    /// Whether a command that arrives now ends the scan before the next byte.
    /// The echo and the two bytes of a level are read without looking.
    pub fn may_interrupt(&self) -> (r: bool)
        ensures
            r == (self.phase() is Tag || self.phase() is Close || self.phase() is Prompt),
    {
        match self.phase {
            ReadPhase::Tag(_) => true,
            ReadPhase::Close => true,
            ReadPhase::Prompt(_) => true,
            _ => false,
        }
    }

    /// What is outstanding of the frame if the scan ends now.
    pub open spec fn left_of_frame(self) -> ScanDrain {
        match self.phase() {
            ReadPhase::Prelude(_) => ScanDrain::Records(self.segment().points),
            ReadPhase::Tag(index) => ScanDrain::Records((self.segment().points - index) as u32),
            ReadPhase::Level { index, left } => ScanDrain::Records(
                (self.segment().points - index) as u32,
            ),
            ReadPhase::Close => ScanDrain::Records(0),
            ReadPhase::Prompt(_) => ScanDrain::FrameClosed,
            ReadPhase::Finished => ScanDrain::FrameClosed,
        }
    }

    /// What is outstanding of the frame if the scan ends now.
    pub fn outstanding(&self) -> (d: ScanDrain)
        requires
            self.valid(),
        ensures
            d == self.left_of_frame(),
    {
        match self.phase {
            ReadPhase::Prelude(_) => ScanDrain::Records(self.segment.points),
            ReadPhase::Tag(index) => ScanDrain::Records(self.segment.points - index),
            ReadPhase::Level { index, left: _ } => ScanDrain::Records(self.segment.points - index),
            ReadPhase::Close => ScanDrain::Records(0),
            ReadPhase::Prompt(_) => ScanDrain::FrameClosed,
            ReadPhase::Finished => ScanDrain::FrameClosed,
        }
    }

    /// Takes one byte.
    fn take(&mut self, byte: u8) -> (r: Result<(), ScanError>)
        requires
            old(self).valid(),
            old(self).phase() != ReadPhase::Finished,
        ensures
            final(self).segment() == old(self).segment(),
            final(self).zero() == old(self).zero(),
            match r {
                Ok(_) => {
                    &&& old(self).refusal(byte) is None
                    &&& final(self).valid()
                    &&& final(self).phase() == old(self).phase_after()
                    &&& final(self).consumed() == old(self).consumed().push(byte)
                },
                Err(e) => old(self).refusal(byte) == Some(e),
            },
    {
        let ghost before = *self;
        match self.phase {
            ReadPhase::Prelude(i) => {
                let expected: u8 = self.expected[i];
                if byte != expected {
                    return Err(ScanError::BadPrelude { at: i, byte, expected });
                }
                assert(prelude(self.segment).take(i + 1) == prelude(self.segment).take(
                    i as int,
                ).push(byte));
                if i == self.expected.len() - 1 {
                    self.frame.push(0x7bu8);
                    self.phase =
                    if self.segment.points > 0 {
                        ReadPhase::Tag(0)
                    } else {
                        ReadPhase::Close
                    };
                    proof {
                        let p = prelude(self.segment);
                        assert(p.last() == 0x7b);
                        assert(p.drop_last() == p.take(i as int));
                        assert(self.frame@ == seq![0x7bu8]);
                        assert(self.consumed() == before.consumed().push(byte));
                    }
                } else {
                    self.phase = ReadPhase::Prelude(i + 1);
                }
                Ok(())
            },
            ReadPhase::Tag(index) => {
                if byte == 0x7d {
                    return Err(ScanError::Closed { index, points: self.segment.points });
                }
                if byte != 0x78 {
                    return Err(ScanError::BadTag { index, tag: byte });
                }
                self.frame.push(byte);
                self.phase = ReadPhase::Level { index, left: 2 };
                assert(self.consumed() == before.consumed().push(byte));
                Ok(())
            },
            ReadPhase::Level { index, left } => {
                self.frame.push(byte);
                self.phase =
                if left > 1 {
                    ReadPhase::Level { index, left: 1 }
                } else if index + 1 < self.segment.points {
                    ReadPhase::Tag(index + 1)
                } else {
                    ReadPhase::Close
                };
                assert(self.consumed() == before.consumed().push(byte));
                Ok(())
            },
            ReadPhase::Close => {
                self.frame.push(byte);
                assert(self.frame@ == before.frame@.push(byte));
                match protocol::parse_scan_frame(
                    self.frame.as_slice(),
                    self.segment.points,
                    self.zero_dbm,
                ) {
                    Err(e) => Err(ScanError::BadFrame(e)),
                    Ok(levels) => {
                        self.levels = levels;
                        self.phase = ReadPhase::Prompt(0);
                        assert(protocol::prompt().take(0) == Seq::<u8>::empty());
                        assert(self.consumed() == before.consumed().push(byte));
                        Ok(())
                    },
                }
            },
            ReadPhase::Prompt(i) => {
                let wanted = protocol::prompt_bytes();
                if byte != wanted[i] {
                    return Err(ScanError::TextAfterFrame { byte });
                }
                assert(protocol::prompt().take(i + 1) == protocol::prompt().take(i as int).push(
                    byte,
                ));
                if i == 3 {
                    self.phase = ReadPhase::Finished;
                    assert(protocol::prompt().take(4) == protocol::prompt());
                } else {
                    self.phase = ReadPhase::Prompt(i + 1);
                }
                assert(self.consumed() == before.consumed().push(byte));
                Ok(())
            },
            ReadPhase::Finished => Ok(()),
        }
    }

    /// Takes what a read gave and says what to do next.
    pub fn feed(&mut self, event: PortEvent, timeout_ms: u128) -> (step: ReadStep)
        requires
            old(self).valid(),
            old(self).phase() != ReadPhase::Finished,
        ensures
            final(self).segment() == old(self).segment(),
            final(self).zero() == old(self).zero(),
            match event {
                PortEvent::Byte(b) => match old(self).refusal(b) {
                    None => {
                        &&& final(self).valid()
                        &&& final(self).phase() == old(self).phase_after()
                        &&& final(self).consumed() == old(self).consumed().push(b)
                        &&& step == if old(self).phase_after() == ReadPhase::Finished {
                            ReadStep::Done
                        } else {
                            ReadStep::ReadMore
                        }
                    },
                    Some(e) => step == ReadStep::Failed(e),
                },
                PortEvent::Silent(ms) => *final(self) == *old(self) && step == if ms >= timeout_ms {
                    ReadStep::Failed(ScanError::TimedOut)
                } else {
                    ReadStep::ReadMore
                },
                PortEvent::Interrupted => *final(self) == *old(self) && step == ReadStep::ReadMore,
                PortEvent::Disconnected => *final(self) == *old(self) && step == ReadStep::Failed(
                    ScanError::Disconnected,
                ),
                PortEvent::Failed => *final(self) == *old(self) && step == ReadStep::Failed(
                    ScanError::ReadFailed,
                ),
            },
    {
        match event {
            PortEvent::Byte(b) => match self.take(b) {
                Ok(()) => if self.phase == ReadPhase::Finished {
                    ReadStep::Done
                } else {
                    ReadStep::ReadMore
                },
                Err(e) => ReadStep::Failed(e),
            },
            PortEvent::Silent(ms) => {
                if ms >= timeout_ms {
                    ReadStep::Failed(ScanError::TimedOut)
                } else {
                    ReadStep::ReadMore
                }
            },
            PortEvent::Interrupted => ReadStep::ReadMore,
            PortEvent::Disconnected => ReadStep::Failed(ScanError::Disconnected),
            PortEvent::Failed => ReadStep::Failed(ScanError::ReadFailed),
        }
    }

    /// The trace a finished scan measured.
    pub fn finish(self) -> (t: ScanTrace)
        requires
            self.valid(),
            self.phase() == ReadPhase::Finished,
        ensures
            ({
                let s = self.segment();
                &&& t.levels@ == self.levels()
                &&& self.holds_levels()
                &&& t.frequencies_hz@.len() == s.points
                &&& forall|i: int|
                    0 <= i < s.points ==> #[trigger] t.frequencies_hz@[i] == s.start_hz
                        + protocol::scan_offset(
                        ((s.stop_hz - s.start_hz) as nat) / (s.points as nat),
                        i as nat,
                    )
                &&& t.center_hz == scan::center_of(s.start_hz as int, s.stop_hz as int)
                &&& t.span_hz == s.stop_hz - s.start_hz
            }),
    {
        proof {
            if self.segment.points > 0 {
                protocol::lemma_scan_fits(
                    self.segment.start_hz,
                    self.segment.stop_hz,
                    self.segment.points,
                );
            }
        }
        ScanTrace {
            frequencies_hz: protocol::scan_frequencies(
                self.segment.start_hz,
                self.segment.stop_hz,
                self.segment.points,
            ),
            levels: self.levels,
            center_hz: scan::window_center(self.segment.start_hz, self.segment.stop_hz),
            span_hz: self.segment.stop_hz - self.segment.start_hz,
        }
    }
}

/// A frame without fault has its tags where the records start and end.
proof fn lemma_frame_shape(frame: Seq<u8>, points: u32, index: int)
    requires
        0 <= index <= points,
        protocol::record_fault(frame, points, index) is None,
    ensures
        frame.len() == 2 + 3 * points,
        frame[1 + 3 * points as int] == 0x7d,
        forall|i: int| index <= i < points ==> #[trigger] frame[1 + 3 * i] == 0x78,
    decreases points - index,
{
    if index < points {
        lemma_frame_shape(frame, points, index + 1);
    }
}

/// A reply that was read to its end was the echo, a frame without fault and the
/// prompt, and nothing else.
pub proof fn law_finished_scan_is_a_whole_reply(s: ScanReader)
    requires
        s.valid(),
        s.phase() == ReadPhase::Finished,
    ensures
        s.consumed() == prelude(s.segment()).drop_last() + s.frame() + protocol::prompt(),
        protocol::frame_fault(s.frame(), s.segment().points) is None,
        s.holds_levels(),
{
}

/// No byte of a well-formed reply is refused: a reader that has consumed the
/// start of one accepts the byte that comes next.
pub proof fn law_well_formed_reply_is_accepted(s: ScanReader, frame: Seq<u8>)
    requires
        s.valid(),
        s.phase() != ReadPhase::Finished,
        protocol::frame_fault(frame, s.segment().points) is None,
        ({
            let reply = prelude(s.segment()).drop_last() + frame + protocol::prompt();
            s.consumed().len() < reply.len() && s.consumed() == reply.take(
                s.consumed().len() as int,
            )
        }),
    ensures
        ({
            let reply = prelude(s.segment()).drop_last() + frame + protocol::prompt();
            s.refusal(reply[s.consumed().len() as int]) is None
        }),
{
    let points = s.segment().points;
    let p = prelude(s.segment());
    let head = p.drop_last();
    let reply = head + frame + protocol::prompt();
    let n = s.consumed().len() as int;
    let byte = reply[n];
    lemma_frame_shape(frame, points, 0);
    assert(p.last() == 0x7b);
    match s.phase() {
        ReadPhase::Prelude(i) => {
            if i + 1 < p.len() {
                assert(reply[i as int] == head[i as int]);
            } else {
                assert(reply[i as int] == frame[0]);
            }
        },
        ReadPhase::Tag(index) => {
            assert(n == head.len() + 1 + 3 * index);
            assert(byte == frame[1 + 3 * index as int]);
        },
        ReadPhase::Level { index, left } => {},
        ReadPhase::Close => {
            assert(n == head.len() + 1 + 3 * points);
            assert(byte == frame[1 + 3 * points as int]);
            let whole = s.frame().push(byte);
            assert forall|k: int| 0 <= k < s.frame().len() implies s.frame()[k] == frame[k] by {
                assert(s.consumed()[head.len() + k] == s.frame()[k]);
                assert(reply.take(n)[head.len() + k] == frame[k]);
            }
            assert(whole == frame);
        },
        ReadPhase::Prompt(i) => {
            lemma_frame_shape(s.frame(), points, 0);
            assert(n == head.len() + frame.len() + i);
            assert(byte == protocol::prompt()[i as int]);
        },
        ReadPhase::Finished => {},
    }
}

/// Between two records what was read of the frame and what is outstanding, three bytes
/// to a record, make up the frame without its closing tag; once the closing tag was
/// read nothing of the frame is outstanding.
pub proof fn law_what_was_read_and_what_is_left_make_the_frame(s: ScanReader)
    requires
        s.valid(),
    ensures
        s.phase() is Tag || s.phase() is Close ==> (s.left_of_frame() matches ScanDrain::Records(n)
            && s.frame().len() + 3 * n == 1 + 3 * s.segment().points),
        s.phase() is Prelude ==> s.left_of_frame() == ScanDrain::Records(s.segment().points),
        s.phase() is Prompt || s.phase() is Finished ==> s.left_of_frame() == ScanDrain::FrameClosed
            && s.frame().len() == 2 + 3 * s.segment().points,
{
    if s.phase() is Prompt || s.phase() is Finished {
        lemma_frame_shape(s.frame(), s.segment().points, 0);
    }
}

/// A byte is refused exactly where it does not belong: where it differs from the echo,
/// where a record starts with anything but its tag, and where it differs from the
/// prompt. The bytes of a level are taken whatever they are.
pub proof fn law_a_byte_is_refused_where_it_does_not_belong(s: ScanReader, byte: u8)
    requires
        s.valid(),
    ensures
        s.phase() matches ReadPhase::Prelude(i) ==> (s.refusal(byte) is None <==> byte == prelude(
            s.segment(),
        )[i as int]),
        s.phase() is Tag ==> (s.refusal(byte) is None <==> byte == 0x78),
        s.phase() is Level ==> s.refusal(byte) is None,
        s.phase() matches ReadPhase::Prompt(i) ==> (s.refusal(byte) is None <==> byte
            == protocol::prompt()[i as int]),
        s.phase() matches ReadPhase::Tag(i) ==> byte == 0x7d ==> s.refusal(byte) == Some(
            ScanError::Closed { index: i, points: s.segment().points },
        ),
        s.phase() is Close && byte != 0x7d ==> s.refusal(byte) is Some,
{
    if s.phase() is Close && s.refusal(byte) is None {
        let whole = s.frame().push(byte);
        lemma_frame_shape(whole, s.segment().points, 0);
        assert(whole.last() == byte);
    }
}

/// Every byte that is taken brings the reader on: after the echo and the opening tag
/// the records come in order, each of a tag and two bytes, then the closing tag, then
/// the four bytes of the prompt.
pub proof fn law_the_parts_of_a_reply_come_in_order(s: ScanReader)
    requires
        s.valid(),
        s.phase() != ReadPhase::Finished,
    ensures
        s.phase() matches ReadPhase::Tag(i) ==> s.phase_after() == (ReadPhase::Level {
            index: i,
            left: 2,
        }),
        s.phase() matches ReadPhase::Level { index, left } ==> {
            &&& left == 2 ==> s.phase_after() == (ReadPhase::Level { index, left: 1 })
            &&& left == 1 && index + 1 < s.segment().points ==> s.phase_after() == ReadPhase::Tag(
                (index + 1) as u32,
            )
            &&& left == 1 && index + 1 == s.segment().points ==> s.phase_after()
                == ReadPhase::Close
        },
        s.phase() is Close ==> s.phase_after() == ReadPhase::Prompt(0),
        s.phase() matches ReadPhase::Prompt(i) ==> if i < 3 {
            s.phase_after() == ReadPhase::Prompt((i + 1) as usize)
        } else {
            s.phase_after() == ReadPhase::Finished
        },
        s.phase() matches ReadPhase::Prelude(i) ==> if i + 1 < prelude(s.segment()).len() {
            s.phase_after() == ReadPhase::Prelude((i + 1) as usize)
        } else if s.segment().points > 0 {
            s.phase_after() == ReadPhase::Tag(0)
        } else {
            s.phase_after() == ReadPhase::Close
        },
{
}

} // verus!
