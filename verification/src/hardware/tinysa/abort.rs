//! Ending a scan early.
//!
//! After `abort` the analyser may still send records of the running frame. The
//! next command is safe only once the frame has closed and the abort has been
//! acknowledged, in either order.

use vstd::prelude::*;

verus! {

/// The longest reply that is read.
pub const MAX_RESPONSE_BYTES: usize = 131_072;

/// What the shell answers to `abort`.
pub open spec fn abort_reply() -> Seq<u8> {
    seq![
        0x61u8,
        0x62u8,
        0x6fu8,
        0x72u8,
        0x74u8,
        0x0du8,
        0x0au8,
        0x63u8,
        0x68u8,
        0x3eu8,
        0x20u8,
    ]
}

/// The command that ends a scan.
pub fn abort_command() -> (out: Vec<u8>)
    ensures
        out@ == seq![0x61u8, 0x62u8, 0x6fu8, 0x72u8, 0x74u8, 0x0du8],
{
    let out: Vec<u8> = vec![0x61u8, 0x62u8, 0x6fu8, 0x72u8, 0x74u8, 0x0du8];
    assert(out@ == seq![0x61u8, 0x62u8, 0x6fu8, 0x72u8, 0x74u8, 0x0du8]);
    out
}

/// One byte of the abort reply.
fn reply_byte(at: usize) -> (b: u8)
    requires
        at < 11,
    ensures
        b == abort_reply()[at as int],
{
    match at {
        0 => 0x61,
        1 => 0x62,
        2 => 0x6f,
        3 => 0x72,
        4 => 0x74,
        5 => 0x0d,
        6 => 0x0a,
        7 => 0x63,
        8 => 0x68,
        9 => 0x3e,
        _ => 0x20,
    }
}

/// How much of a frame is outstanding when a scan is aborted.
#[derive(Clone, Copy, Debug, PartialEq, Eq, Structural)]
pub enum ScanDrain {
    /// Up to this many records and the closing tag.
    Records(u32),
    /// Nothing: the frame has closed.
    FrameClosed,
}

/// What the next byte must be.
#[derive(Clone, Copy, Debug, PartialEq, Eq, Structural)]
pub enum Expecting {
    /// A tag, or any byte once the frame has closed.
    Tag,
    /// So many bytes of a record, whatever they are.
    Payload(u8),
    /// This byte of the abort reply.
    Reply(usize),
}

/// Why an abort was given up.
#[derive(Clone, Copy, Debug, PartialEq, Eq, Structural)]
pub enum DrainError {
    TooLong,
    MalformedFrame,
    MalformedReply,
    TimedOut,
    Disconnected,
    ReadFailed,
}

impl DrainError {
    pub open spec fn text(self) -> Seq<char> {
        match self {
            DrainError::TooLong => "tinySA abort drain exceeded 131072 bytes"@,
            DrainError::MalformedFrame => "tinySA aborted scan frame was malformed"@,
            DrainError::MalformedReply => "tinySA abort acknowledgement was malformed"@,
            DrainError::TimedOut => "timed out draining the tinySA aborted scan"@,
            DrainError::Disconnected => "tinySA disconnected while aborting a scan"@,
            DrainError::ReadFailed => "failed to drain tinySA aborted scan"@,
        }
    }

    /// The sentence shown for the error.
    pub fn message(self) -> (t: &'static str)
        ensures
            t@ == self.text(),
    {
        match self {
            DrainError::TooLong => "tinySA abort drain exceeded 131072 bytes",
            DrainError::MalformedFrame => "tinySA aborted scan frame was malformed",
            DrainError::MalformedReply => "tinySA abort acknowledgement was malformed",
            DrainError::TimedOut => "timed out draining the tinySA aborted scan",
            DrainError::Disconnected => "tinySA disconnected while aborting a scan",
            DrainError::ReadFailed => "failed to drain tinySA aborted scan",
        }
    }
}

/// What a read from the port gave.
#[derive(Clone, Copy, Debug, PartialEq, Eq, Structural)]
pub enum PortEvent {
    Byte(u8),
    /// Nothing yet; so many milliseconds since the last byte.
    Silent(u128),
    /// A read that was cut off and is to be repeated.
    Interrupted,
    Disconnected,
    Failed,
}

/// How far an abort has come.
#[derive(Clone, Copy, Debug, PartialEq, Eq, Structural)]
pub struct AbortDrain {
    /// Records that may still come, until the frame closes.
    pub records: Option<u32>,
    /// How much of the abort reply has been seen.
    pub reply_at: usize,
    pub expecting: Expecting,
    pub bytes_read: usize,
}

/// What to do next.
#[derive(Clone, Copy, Debug, PartialEq, Eq, Structural)]
pub enum DrainStep {
    ReadMore,
    Done,
    Failed(DrainError),
}

impl AbortDrain {
    pub open spec fn started(progress: ScanDrain) -> Self {
        AbortDrain {
            records: match progress {
                ScanDrain::Records(n) => Some(n),
                ScanDrain::FrameClosed => None,
            },
            reply_at: 0,
            expecting: Expecting::Tag,
            bytes_read: 0,
        }
    }

    pub open spec fn valid(self) -> bool {
        &&& self.reply_at <= 11
        &&& self.bytes_read <= MAX_RESPONSE_BYTES
        &&& match self.expecting {
            Expecting::Tag => true,
            Expecting::Payload(n) => 1 <= n <= 2 && self.records is Some,
            Expecting::Reply(i) => 1 <= i <= 10 && self.records is Some,
        }
    }

    /// The frame has closed and the abort has been acknowledged.
    pub open spec fn finished(self) -> bool {
        self.records is None && self.reply_at == 11 && self.expecting == Expecting::Tag
    }

    /// The state after one more byte.
    pub open spec fn after(self, byte: u8) -> Result<AbortDrain, DrainError> {
        let s = AbortDrain { bytes_read: (self.bytes_read + 1) as usize, ..self };
        if self.bytes_read >= MAX_RESPONSE_BYTES {
            Err(DrainError::TooLong)
        } else {
            match self.expecting {
                Expecting::Payload(n) => Ok(
                    AbortDrain {
                        expecting: if n == 1 {
                            Expecting::Tag
                        } else {
                            Expecting::Payload((n - 1) as u8)
                        },
                        ..s
                    },
                ),
                Expecting::Reply(i) => if byte != abort_reply()[i as int] {
                    Err(DrainError::MalformedReply)
                } else if i == 10 {
                    Ok(AbortDrain { reply_at: 11, expecting: Expecting::Tag, ..s })
                } else {
                    Ok(AbortDrain { expecting: Expecting::Reply((i + 1) as usize), ..s })
                },
                Expecting::Tag => match self.records {
                    Some(left) => if byte == 0x78 && left > 0 {
                        Ok(
                            AbortDrain {
                                records: Some((left - 1) as u32),
                                expecting: Expecting::Payload(2),
                                ..s
                            },
                        )
                    } else if byte == 0x7d {
                        Ok(AbortDrain { records: None, ..s })
                    } else if byte == 0x61 {
                        Ok(AbortDrain { expecting: Expecting::Reply(1), ..s })
                    } else {
                        Err(DrainError::MalformedFrame)
                    },
                    None => if byte == abort_reply()[self.reply_at as int] {
                        Ok(AbortDrain { reply_at: (self.reply_at + 1) as usize, ..s })
                    } else {
                        Ok(
                            AbortDrain {
                                reply_at: if byte == 0x61 {
                                    1
                                } else {
                                    0
                                },
                                ..s
                            },
                        )
                    },
                },
            }
        }
    }

    /// The state after a run of bytes, each read only while the drain is not finished.
    pub open spec fn after_all(self, bytes: Seq<u8>) -> Result<AbortDrain, DrainError>
        decreases bytes.len(),
    {
        if bytes.len() == 0 {
            Ok(self)
        } else {
            match self.after_all(bytes.drop_last()) {
                Err(e) => Err(e),
                Ok(s) => if s.finished() {
                    Ok(s)
                } else {
                    s.after(bytes.last())
                },
            }
        }
    }

    /// Starts draining, once the abort command has been written.
    pub fn new(progress: ScanDrain) -> (s: Self)
        ensures
            s == Self::started(progress),
            s.valid(),
            !s.finished(),
    {
        let records: Option<u32> = match progress {
            ScanDrain::Records(n) => Some(n),
            ScanDrain::FrameClosed => None,
        };
        AbortDrain { records, reply_at: 0, expecting: Expecting::Tag, bytes_read: 0 }
    }

    /// Takes one byte.
    fn take(&mut self, byte: u8) -> (r: Result<(), DrainError>)
        requires
            old(self).valid(),
            !old(self).finished(),
        ensures
            match r {
                Ok(_) => old(self).after(byte) == Ok::<AbortDrain, DrainError>(*final(self))
                    && final(self).valid(),
                Err(e) => old(self).after(byte) == Err::<AbortDrain, DrainError>(e),
            },
    {
        if self.bytes_read >= MAX_RESPONSE_BYTES {
            return Err(DrainError::TooLong);
        }
        self.bytes_read = self.bytes_read + 1;
        match self.expecting {
            Expecting::Payload(n) => {
                self.expecting =
                if n == 1 {
                    Expecting::Tag
                } else {
                    Expecting::Payload(n - 1)
                };
                Ok(())
            },
            Expecting::Reply(i) => {
                if byte != reply_byte(i) {
                    return Err(DrainError::MalformedReply);
                }
                if i == 10 {
                    self.reply_at = 11;
                    self.expecting = Expecting::Tag;
                } else {
                    self.expecting = Expecting::Reply(i + 1);
                }
                Ok(())
            },
            Expecting::Tag => {
                match self.records {
                    Some(left) => {
                        if byte == 0x78 && left > 0 {
                            self.records = Some(left - 1);
                            self.expecting = Expecting::Payload(2);
                        } else if byte == 0x7d {
                            self.records = None;
                        } else if byte == 0x61 {
                            self.expecting = Expecting::Reply(1);
                        } else {
                            return Err(DrainError::MalformedFrame);
                        }
                    },
                    None => {
                        if byte == reply_byte(self.reply_at) {
                            self.reply_at = self.reply_at + 1;
                        } else {
                            self.reply_at =
                            if byte == 0x61 {
                                1
                            } else {
                                0
                            };
                        }
                    },
                }
                Ok(())
            },
        }
    }

    /// Takes what a read gave and says what to do next. Silence is borne until it
    /// has lasted as long as the scan may stay silent.
    pub fn feed(&mut self, event: PortEvent, timeout_ms: u128) -> (step: DrainStep)
        requires
            old(self).valid(),
            !old(self).finished(),
        ensures
            match event {
                PortEvent::Byte(b) => match old(self).after(b) {
                    Ok(s) => {
                        &&& *final(self) == s
                        &&& s.valid()
                        &&& step == if s.finished() {
                            DrainStep::Done
                        } else {
                            DrainStep::ReadMore
                        }
                    },
                    Err(e) => step == DrainStep::Failed(e),
                },
                PortEvent::Silent(ms) => *final(self) == *old(self) && step == if ms >= timeout_ms {
                    DrainStep::Failed(DrainError::TimedOut)
                } else {
                    DrainStep::ReadMore
                },
                PortEvent::Interrupted => *final(self) == *old(self) && step == DrainStep::ReadMore,
                PortEvent::Disconnected => *final(self) == *old(self) && step == DrainStep::Failed(
                    DrainError::Disconnected,
                ),
                PortEvent::Failed => *final(self) == *old(self) && step == DrainStep::Failed(
                    DrainError::ReadFailed,
                ),
            },
    {
        match event {
            PortEvent::Byte(b) => match self.take(b) {
                Ok(()) => {
                    if self.records.is_none() && self.reply_at == 11 && self.expecting
                        == Expecting::Tag {
                        DrainStep::Done
                    } else {
                        DrainStep::ReadMore
                    }
                },
                Err(e) => DrainStep::Failed(e),
            },
            PortEvent::Silent(ms) => {
                if ms >= timeout_ms {
                    DrainStep::Failed(DrainError::TimedOut)
                } else {
                    DrainStep::ReadMore
                }
            },
            PortEvent::Interrupted => DrainStep::ReadMore,
            PortEvent::Disconnected => DrainStep::Failed(DrainError::Disconnected),
            PortEvent::Failed => DrainStep::Failed(DrainError::ReadFailed),
        }
    }
}

/// Whether a byte string ends with the first `n` bytes of the abort reply.
pub open spec fn ends_with_reply(bytes: Seq<u8>, n: int) -> bool {
    &&& n <= bytes.len()
    &&& forall|k: int| 0 <= k < n ==> bytes[bytes.len() - n + k] == #[trigger] abort_reply()[k]
}

/// Whether the whole abort reply stands in a byte string.
pub open spec fn holds_reply(bytes: Seq<u8>) -> bool {
    exists|n: int| 0 <= n <= bytes.len() && #[trigger] ends_with_reply(bytes.take(n), 11)
}

/// What holds of a drain and the bytes it has read.
spec fn accounted(s: AbortDrain, bytes: Seq<u8>, framed: bool) -> bool {
    &&& s.valid()
    &&& s.bytes_read == bytes.len()
    &&& framed && s.records is None ==> bytes.contains(0x7d)
    &&& s.reply_at == 11 ==> holds_reply(bytes)
    &&& s.records is Some ==> s.reply_at == 0 || s.reply_at == 11
    &&& s.reply_at < 11 ==> ends_with_reply(bytes, s.reply_at as int)
    &&& s.expecting matches Expecting::Reply(i) ==> ends_with_reply(bytes, i as int)
}

/// What a byte string holds, a longer one holds too.
proof fn lemma_still_holds(bytes: Seq<u8>, byte: u8)
    requires
        holds_reply(bytes),
    ensures
        holds_reply(bytes.push(byte)),
{
    let n = choose|n: int| 0 <= n <= bytes.len() && #[trigger] ends_with_reply(bytes.take(n), 11);
    assert(bytes.push(byte).take(n) == bytes.take(n));
    assert(ends_with_reply(bytes.push(byte).take(n), 11));
}

/// One matching byte makes a match one byte longer.
proof fn lemma_longer_match(bytes: Seq<u8>, n: int)
    requires
        0 <= n < 11,
        ends_with_reply(bytes, n),
    ensures
        ends_with_reply(bytes.push(abort_reply()[n]), n + 1),
        n == 10 ==> holds_reply(bytes.push(abort_reply()[n])),
{
    let more = bytes.push(abort_reply()[n]);
    assert forall|k: int| 0 <= k < n + 1 implies more[more.len() - (n + 1) + k]
        == #[trigger] abort_reply()[k] by {
        if k < n {
            assert(more[more.len() - (n + 1) + k] == bytes[bytes.len() - n + k]);
        }
    }
    if n == 10 {
        assert(more.take(more.len() as int) == more);
        assert(ends_with_reply(more.take(more.len() as int), 11));
    }
}

/// The accounting survives one more byte.
proof fn lemma_accounted_step(s: AbortDrain, bytes: Seq<u8>, byte: u8, framed: bool)
    requires
        accounted(s, bytes, framed),
        !s.finished(),
        s.after(byte) is Ok,
    ensures
        accounted(s.after(byte)->Ok_0, bytes.push(byte), framed),
{
    let t = s.after(byte)->Ok_0;
    let more = bytes.push(byte);
    if holds_reply(bytes) {
        lemma_still_holds(bytes, byte);
    }
    if bytes.contains(0x7d) {
        let i = choose|i: int| 0 <= i < bytes.len() && bytes[i] == 0x7d;
        assert(more[i] == 0x7d);
    }
    assert(more[bytes.len() as int] == byte);
    assert(ends_with_reply(more, 0));
    match s.expecting {
        Expecting::Payload(n) => {},
        Expecting::Reply(i) => {
            lemma_longer_match(bytes, i as int);
        },
        Expecting::Tag => {
            if byte == 0x61 {
                lemma_longer_match(bytes, 0);
                assert(ends_with_reply(bytes, 0));
            }
            if s.records is None {
                if byte == abort_reply()[s.reply_at as int] {
                    lemma_longer_match(bytes, s.reply_at as int);
                }
            }
        },
    }
}

/// The accounting holds all along a run of bytes.
proof fn lemma_accounted(start: AbortDrain, bytes: Seq<u8>, framed: bool)
    requires
        accounted(start, Seq::empty(), framed),
        !start.finished(),
        start.after_all(bytes) is Ok,
    ensures
        exists|n: int|
            0 <= n <= bytes.len() && #[trigger] accounted(
                start.after_all(bytes)->Ok_0,
                bytes.take(n),
                framed,
            ) && (!start.after_all(bytes)->Ok_0.finished() ==> n == bytes.len()),
    decreases bytes.len(),
{
    if bytes.len() == 0 {
        assert(bytes.take(0) == Seq::<u8>::empty());
        assert(accounted(start.after_all(bytes)->Ok_0, bytes.take(0), framed));
    } else {
        let less = bytes.drop_last();
        lemma_accounted(start, less, framed);
        let s = start.after_all(less)->Ok_0;
        let n = choose|n: int|
            0 <= n <= less.len() && #[trigger] accounted(s, less.take(n), framed) && (!s.finished()
                ==> n == less.len());
        if s.finished() {
            assert(bytes.take(n) == less.take(n));
            assert(accounted(start.after_all(bytes)->Ok_0, bytes.take(n), framed));
        } else {
            assert(less.take(n) == less);
            lemma_accounted_step(s, less, bytes.last(), framed);
            assert(bytes.take(bytes.len() as int) == less.push(bytes.last()));
            assert(accounted(
                start.after_all(bytes)->Ok_0,
                bytes.take(bytes.len() as int),
                framed,
            ));
        }
    }
}

/// A drain that ends has read the whole abort reply, and the closing tag of the
/// frame where one was outstanding. So the next command never meets the rest of
/// an aborted scan.
pub proof fn law_drain_ends_clean(progress: ScanDrain, bytes: Seq<u8>)
    requires
        AbortDrain::started(progress).after_all(bytes) is Ok,
        AbortDrain::started(progress).after_all(bytes)->Ok_0.finished(),
    ensures
        holds_reply(bytes),
        progress is Records ==> bytes.contains(0x7d),
        AbortDrain::started(progress).after_all(bytes)->Ok_0.bytes_read <= MAX_RESPONSE_BYTES,
{
    let start = AbortDrain::started(progress);
    let framed = progress is Records;
    assert(ends_with_reply(Seq::<u8>::empty(), 0));
    assert(accounted(start, Seq::empty(), framed));
    lemma_accounted(start, bytes, framed);
    let s = start.after_all(bytes)->Ok_0;
    let n = choose|n: int|
        0 <= n <= bytes.len() && #[trigger] accounted(s, bytes.take(n), framed) && (!s.finished()
            ==> n == bytes.len());
    let m = choose|m: int|
        0 <= m <= bytes.take(n).len() && #[trigger] ends_with_reply(bytes.take(n).take(m), 11);
    assert(bytes.take(n).take(m) == bytes.take(m));
    assert(ends_with_reply(bytes.take(m), 11));
    if framed {
        let i = choose|i: int| 0 <= i < bytes.take(n).len() && bytes.take(n)[i] == 0x7d;
        assert(bytes[i] == 0x7d);
    }
}

/// The bytes of a record are never read as tags: a record with any payload leaves
/// only the count of outstanding records changed.
pub proof fn law_payload_is_opaque(s: AbortDrain, low: u8, high: u8)
    requires
        s.valid(),
        s.expecting == Expecting::Tag,
        s.records matches Some(left) && left > 0,
        s.bytes_read + 3 <= MAX_RESPONSE_BYTES,
    ensures
        s.after_all(seq![0x78u8, low, high]) == Ok::<AbortDrain, DrainError>(
            AbortDrain {
                records: Some((s.records->Some_0 - 1) as u32),
                bytes_read: (s.bytes_read + 3) as usize,
                ..s
            },
        ),
{
    let all = seq![0x78u8, low, high];
    assert(all.drop_last() == seq![0x78u8, low]);
    assert(all.drop_last().drop_last() == seq![0x78u8]);
    assert(all.drop_last().drop_last().drop_last() == Seq::<u8>::empty());
    reveal_with_fuel(AbortDrain::after_all, 4);
}

/// Reading a byte string in two parts gives the same as reading it whole.
proof fn lemma_after_all_split(s: AbortDrain, head: Seq<u8>, tail: Seq<u8>)
    requires
        s.after_all(head) is Ok,
    ensures
        s.after_all(head + tail) == s.after_all(head)->Ok_0.after_all(tail),
    decreases tail.len(),
{
    if tail.len() == 0 {
        assert(head + tail == head);
    } else {
        lemma_after_all_split(s, head, tail.drop_last());
        assert((head + tail).drop_last() == head + tail.drop_last());
    }
}

/// Matching goes on byte by byte once the reply has begun.
proof fn lemma_reply_runs(s: AbortDrain, n: int)
    requires
        s.valid(),
        s.records is None,
        s.expecting == Expecting::Tag,
        s.reply_at < 11,
        s.bytes_read + 11 <= MAX_RESPONSE_BYTES,
        1 <= n <= 11,
    ensures
        s.after_all(abort_reply().take(n)) == Ok::<AbortDrain, DrainError>(
            AbortDrain { reply_at: n as usize, bytes_read: (s.bytes_read + n) as usize, ..s },
        ),
    decreases n,
{
    let part = abort_reply().take(n);
    assert(part.drop_last() == abort_reply().take(n - 1));
    assert(part.last() == abort_reply()[n - 1]);
    if n == 1 {
        assert(part.drop_last() == Seq::<u8>::empty());
        assert(s.after_all(part.drop_last()) == Ok::<AbortDrain, DrainError>(s));
        assert(s.reply_at > 0 ==> abort_reply()[s.reply_at as int] != 0x61);
    } else {
        lemma_reply_runs(s, n - 1);
    }
}

/// Once the frame has closed, whatever else the shell printed, the abort reply
/// ends the drain.
pub proof fn law_reply_ends_a_closed_drain(s: AbortDrain, noise: Seq<u8>)
    requires
        s.valid(),
        s.records is None,
        s.expecting == Expecting::Tag,
        !s.finished(),
        s.bytes_read + noise.len() + 11 <= MAX_RESPONSE_BYTES,
    ensures
        s.after_all(noise + abort_reply()) is Ok,
        s.after_all(noise + abort_reply())->Ok_0.finished(),
{
    lemma_closed_runs(s, noise);
    let t = s.after_all(noise)->Ok_0;
    lemma_after_all_split(s, noise, abort_reply());
    if t.finished() {
        lemma_finished_stays(t, abort_reply());
    } else {
        lemma_reply_runs(t, 11);
        assert(abort_reply().take(11) == abort_reply());
    }
}

/// A finished drain reads nothing more.
proof fn lemma_finished_stays(s: AbortDrain, bytes: Seq<u8>)
    requires
        s.finished(),
    ensures
        s.after_all(bytes) == Ok::<AbortDrain, DrainError>(s),
    decreases bytes.len(),
{
    if bytes.len() > 0 {
        lemma_finished_stays(s, bytes.drop_last());
    }
}

/// A closed drain takes any bytes.
proof fn lemma_closed_runs(s: AbortDrain, bytes: Seq<u8>)
    requires
        s.valid(),
        s.records is None,
        s.expecting == Expecting::Tag,
        s.bytes_read + bytes.len() <= MAX_RESPONSE_BYTES,
    ensures
        s.after_all(bytes) is Ok,
        ({
            let t = s.after_all(bytes)->Ok_0;
            &&& t.valid()
            &&& t.records is None
            &&& t.expecting == Expecting::Tag
            &&& t.bytes_read <= s.bytes_read + bytes.len()
        }),
    decreases bytes.len(),
{
    if bytes.len() > 0 {
        lemma_closed_runs(s, bytes.drop_last());
    }
}

/// What is left of a frame may come before the shell has acknowledged: any number of
/// records up to those outstanding, then the closing tag. Then only the acknowledgement
/// is missing, and nothing of the frame.
pub proof fn law_the_rest_of_a_frame_is_drained(s: AbortDrain, records: Seq<(u8, u8)>)
    requires
        s.valid(),
        s.expecting == Expecting::Tag,
        s.records matches Some(left) && records.len() <= left,
        s.bytes_read + 3 * records.len() + 1 <= MAX_RESPONSE_BYTES,
    ensures
        ({
            let rest = record_bytes(records).push(0x7d);
            &&& s.after_all(rest) is Ok
            &&& s.after_all(rest)->Ok_0 == (AbortDrain {
                records: None,
                bytes_read: (s.bytes_read + 3 * records.len() + 1) as usize,
                ..s
            })
        }),
{
    lemma_records_drain(s, records);
    let rest = record_bytes(records).push(0x7d);
    assert(rest.drop_last() == record_bytes(records));
}

/// Records as they are sent.
pub open spec fn record_bytes(records: Seq<(u8, u8)>) -> Seq<u8>
    decreases records.len(),
{
    if records.len() == 0 {
        Seq::empty()
    } else {
        record_bytes(records.drop_last()) + seq![0x78u8, records.last().0, records.last().1]
    }
}

proof fn lemma_records_drain(s: AbortDrain, records: Seq<(u8, u8)>)
    requires
        s.valid(),
        s.expecting == Expecting::Tag,
        s.records matches Some(left) && records.len() <= left,
        s.bytes_read + 3 * records.len() <= MAX_RESPONSE_BYTES,
    ensures
        s.after_all(record_bytes(records)) == Ok::<AbortDrain, DrainError>(
            AbortDrain {
                records: Some((s.records->Some_0 - records.len()) as u32),
                bytes_read: (s.bytes_read + 3 * records.len()) as usize,
                ..s
            },
        ),
    decreases records.len(),
{
    if records.len() > 0 {
        let head = records.drop_last();
        lemma_records_drain(s, head);
        let t = s.after_all(record_bytes(head))->Ok_0;
        law_payload_is_opaque(t, records.last().0, records.last().1);
        lemma_after_all_split(
            s,
            record_bytes(head),
            seq![0x78u8, records.last().0, records.last().1],
        );
    }
}

/// Inside a frame only a tag, or the start of the acknowledgement, may stand where a tag
/// belongs, and no more records than are outstanding.
pub proof fn law_anything_else_in_a_frame_is_refused(s: AbortDrain, byte: u8)
    requires
        s.valid(),
        s.expecting == Expecting::Tag,
        s.records is Some,
        s.bytes_read < MAX_RESPONSE_BYTES,
    ensures
        s.after(byte) is Ok <==> byte == 0x7d || byte == 0x61 || (byte == 0x78
            && s.records->Some_0 > 0),
        s.after(byte) matches Err(e) ==> e == DrainError::MalformedFrame,
{
}

} // verus!
