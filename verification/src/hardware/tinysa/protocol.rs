//! The text and binary replies of the tinySA shell.
//!
//! Every reply ends at the shell prompt. A text reply starts with the echo of
//! the command; a scan reply holds tagged little-endian records between braces.

use crate::text;
use vstd::prelude::*;

verus! {

/// The shell prompt that ends every reply.
pub open spec fn prompt() -> Seq<u8> {
    seq![0x63u8, 0x68u8, 0x3eu8, 0x20u8]
}

/// The bytes of the shell prompt.
pub fn prompt_bytes() -> (out: Vec<u8>)
    ensures
        out@ == prompt(),
{
    let out: Vec<u8> = vec![0x63u8, 0x68u8, 0x3eu8, 0x20u8];
    assert(out@ == prompt());
    out
}

/// What `String::from_utf8_lossy` makes of a byte string.
pub uninterp spec fn lossy_utf8(bytes: Seq<u8>) -> Seq<char>;

/// Decodes bytes with `String::from_utf8_lossy`. The result is a function of
/// the bytes alone, and of valid UTF-8 it is the text those bytes encode.
#[verifier::external_body]
pub(crate) fn lossy_text(bytes: &[u8]) -> (s: String)
    ensures
        s@ == lossy_utf8(bytes@),
        vstd::utf8::valid_utf8(bytes@) ==> s@ == vstd::utf8::decode_utf8(bytes@),
{
    String::from_utf8_lossy(bytes).into_owned()
}

/// Decodes bytes with `std::str::from_utf8`, which accepts exactly the valid
/// UTF-8 strings and returns the text they encode.
#[verifier::external_body]
fn utf8_text(bytes: &[u8]) -> (s: Option<String>)
    ensures
        match s {
            Some(t) => vstd::utf8::valid_utf8(bytes@) && t@ == vstd::utf8::decode_utf8(bytes@),
            None => !vstd::utf8::valid_utf8(bytes@),
        },
{
    std::str::from_utf8(bytes).ok().map(|t| t.to_string())
}

/// The analysers this library tells apart.
#[derive(Clone, Copy, Debug, PartialEq, Eq, Structural)]
pub enum Model {
    Basic,
    Zs405,
    Zs406,
    Zs407,
    UltraUnknown,
}

impl Model {
    pub open spec fn ultra(self) -> bool {
        self != Model::Basic
    }

    pub open spec fn max_hz(self) -> u64 {
        match self {
            Model::Basic => 960_000_000,
            Model::Zs405 | Model::Zs406 | Model::UltraUnknown => 6_000_000_000,
            Model::Zs407 => 7_300_000_000,
        }
    }

    pub open spec fn boundary_hz(self) -> u64 {
        match self {
            Model::Basic => 350_000_000,
            Model::Zs405 => 800_000_000,
            Model::Zs406 | Model::Zs407 | Model::UltraUnknown => 900_000_000,
        }
    }

    pub open spec fn title(self) -> Seq<char> {
        match self {
            Model::Basic => "tinySA"@,
            Model::Zs405 => "tinySA Ultra ZS405"@,
            Model::Zs406 => "tinySA Ultra ZS406"@,
            Model::Zs407 => "tinySA Ultra ZS407"@,
            Model::UltraUnknown => "tinySA Ultra"@,
        }
    }

    /// Every model but the basic one is an Ultra.
    pub fn is_ultra(self) -> (r: bool)
        ensures
            r == self.ultra(),
    {
        self != Model::Basic
    }

    /// The highest frequency the model measures. An Ultra that does not say
    /// which one it is gets the range every Ultra has.
    pub fn maximum_hz(self) -> (hz: u64)
        ensures
            hz == self.max_hz(),
    {
        match self {
            Model::Basic => 960_000_000,
            Model::Zs405 | Model::Zs406 | Model::UltraUnknown => 6_000_000_000,
            Model::Zs407 => 7_300_000_000,
        }
    }

    /// Where the model changes its signal path.
    pub fn path_boundary_hz(self) -> (hz: u64)
        ensures
            hz == self.boundary_hz(),
    {
        match self {
            Model::Basic => 350_000_000,
            Model::Zs405 => 800_000_000,
            Model::Zs406 | Model::Zs407 | Model::UltraUnknown => 900_000_000,
        }
    }

    /// The name shown for the model.
    pub fn name(self) -> (text: &'static str)
        ensures
            text@ == self.title(),
    {
        match self {
            Model::Basic => "tinySA",
            Model::Zs405 => "tinySA Ultra ZS405",
            Model::Zs406 => "tinySA Ultra ZS406",
            Model::Zs407 => "tinySA Ultra ZS407",
            Model::UltraUnknown => "tinySA Ultra",
        }
    }
}

/// Why a text reply was refused.
#[derive(Debug)]
pub enum TextError {
    NoPrompt,
    NoEcho,
    /// The shell does not know the command with this first word.
    Unsupported(String),
}

impl TextError {
    pub open spec fn text(self) -> Seq<char> {
        match self {
            TextError::NoPrompt => "tinySA response did not end at the shell prompt"@,
            TextError::NoEcho => "tinySA response did not echo the command"@,
            TextError::Unsupported(word) => "tinySA does not support the "@ + word@ + " command"@,
        }
    }

    /// The sentence shown for the error.
    pub fn message(&self) -> (out: String)
        ensures
            out@ == self.text(),
    {
        let mut t: Vec<char> = Vec::new();
        match self {
            TextError::NoPrompt => text::push_str(
                &mut t,
                "tinySA response did not end at the shell prompt",
            ),
            TextError::NoEcho => text::push_str(&mut t, "tinySA response did not echo the command"),
            TextError::Unsupported(word) => {
                text::push_str(&mut t, "tinySA does not support the ");
                text::push_str(&mut t, word.as_str());
                text::push_str(&mut t, " command");
            },
        }
        assert(t@ == self.text());
        text::from_chars(t.as_slice())
    }
}

/// Whether a byte string ends with another.
pub open spec fn ends_with(bytes: Seq<u8>, tail: Seq<u8>) -> bool {
    tail.len() <= bytes.len() && bytes.skip(bytes.len() - tail.len()) == tail
}

/// Whether a byte string starts with another.
pub open spec fn starts_with(bytes: Seq<u8>, head: Seq<u8>) -> bool {
    head.len() <= bytes.len() && bytes.take(head.len() as int) == head
}

/// A reply without the prompt that ends it.
pub open spec fn before_prompt(frame: Seq<u8>) -> Seq<u8> {
    frame.take(frame.len() - prompt().len())
}

/// What the shell sends back before it answers a command.
pub open spec fn echo_of(command: Seq<char>) -> Seq<u8> {
    vstd::utf8::encode_utf8(command) + seq![0x0du8, 0x0au8]
}

/// What stands between the echo and the prompt.
pub open spec fn body_of(frame: Seq<u8>, command: Seq<char>) -> Seq<u8> {
    before_prompt(frame).skip(echo_of(command).len() as int)
}

/// The number of leading characters that satisfy a test.
pub open spec fn run_length(s: Seq<char>, test: spec_fn(char) -> bool) -> int
    decreases s.len(),
{
    if s.len() > 0 && test(s[0]) {
        1 + run_length(s.drop_first(), test)
    } else {
        0
    }
}

/// The first word of a command, or the whole of it when it has no word.
pub open spec fn first_word(command: Seq<char>) -> Seq<char> {
    let blank = run_length(command, |c: char| text::is_ascii_space(c));
    let rest = command.skip(blank);
    let word = run_length(rest, |c: char| !text::is_ascii_space(c));
    if word == 0 {
        command
    } else {
        rest.take(word)
    }
}

/// Whether a reply holds a line that reads as the word and a question mark.
pub open spec fn names_unknown(text: Seq<char>, word: Seq<char>) -> bool {
    exists|i: int|
        0 <= i < text::lines_of(text).len() && text::trimmed(#[trigger] text::lines_of(text)[i]) == word.push('?')
}

/// The shell answers an unknown command with its first word and a question mark.
pub fn reports_unknown(reply: &[char], word: &[char]) -> (r: bool)
    ensures
        r == names_unknown(reply@, word@),
{
    let all = text::lines(reply);
    let mut unknown: Vec<char> = Vec::new();
    text::push_all(&mut unknown, word);
    unknown.push('?');
    assert(unknown@ == word@.push('?'));
    let ghost listed = text::lines_of(reply@);
    assert(all@.map_values(|l: Vec<char>| l@) == listed);
    let mut i: usize = 0;
    while i < all.len()
        invariant
            i <= all@.len(),
            all@.map_values(|l: Vec<char>| l@) == listed,
            listed == text::lines_of(reply@),
            unknown@ == word@.push('?'),
            forall|k: int| 0 <= k < i ==> text::trimmed(#[trigger] listed[k]) != unknown@,
        decreases all@.len() - i,
    {
        let line = text::trim(all[i].as_slice());
        assert(all@.map_values(|l: Vec<char>| l@)[i as int] == all@[i as int]@);
        if text::same(line.as_slice(), unknown.as_slice()) {
            assert(text::trimmed(listed[i as int]) == word@.push('?'));
            return true;
        }
        i += 1;
    }
    false
}

/// A run is as long as its leading characters keep passing the test.
proof fn lemma_run_length(s: Seq<char>, test: spec_fn(char) -> bool, n: int)
    requires
        0 <= n <= s.len(),
        forall|i: int| 0 <= i < n ==> test(#[trigger] s[i]),
        n < s.len() ==> !test(s[n]),
    ensures
        run_length(s, test) == n,
    decreases n,
{
    if n > 0 {
        let t = s.drop_first();
        assert(test(s[0]));
        assert forall|i: int| 0 <= i < n - 1 implies test(#[trigger] t[i]) by {
            assert(t[i] == s[i + 1]);
        }
        lemma_run_length(t, test, n - 1);
    }
}

/// Whether a character separates words.
fn ascii_space(c: char) -> (r: bool)
    ensures
        r == text::is_ascii_space(c),
{
    c == ' ' || c == '\t' || c == '\n' || c == '\u{0c}' || c == '\r'
}

/// The first word of a command.
pub fn command_word(command: &[char]) -> (word: Vec<char>)
    ensures
        word@ == first_word(command@),
{
    let ghost is_blank = |c: char| text::is_ascii_space(c);
    let ghost is_solid = |c: char| !text::is_ascii_space(c);
    let mut start: usize = 0;
    while start < command.len() && ascii_space(command[start])
        invariant
            start <= command@.len(),
            is_blank == (|c: char| text::is_ascii_space(c)),
            forall|i: int| 0 <= i < start ==> is_blank(#[trigger] command@[i]),
        decreases command@.len() - start,
    {
        start += 1;
    }
    let mut end: usize = start;
    while end < command.len() && !ascii_space(command[end])
        invariant
            start <= end <= command@.len(),
            is_solid == (|c: char| !text::is_ascii_space(c)),
            forall|i: int| start <= i < end ==> is_solid(#[trigger] command@[i]),
        decreases command@.len() - end,
    {
        end += 1;
    }
    proof {
        lemma_run_length(command@, is_blank, start as int);
        let rest = command@.skip(start as int);
        assert forall|i: int| 0 <= i < end - start implies is_solid(#[trigger] rest[i]) by {
            assert(rest[i] == command@[start + i]);
        }
        if end < command@.len() {
            assert(rest[end - start] == command@[end as int]);
        }
        lemma_run_length(rest, is_solid, end - start);
        assert(rest.take(end - start) == command@.subrange(start as int, end as int));
        assert(command@.subrange(0, command@.len() as int) == command@);
    }
    if start == end {
        text::slice_of(command, 0, command.len())
    } else {
        text::slice_of(command, start, end)
    }
}

/// Whether `part` stands in `bytes` at position `at`.
fn bytes_at(bytes: &[u8], part: &[u8], at: usize) -> (r: bool)
    requires
        at + part@.len() <= bytes.len(),
    ensures
        r == (bytes@.subrange(at as int, at + part@.len()) == part@),
{
    let mut i: usize = 0;
    while i < part.len()
        invariant
            i <= part@.len(),
            at + part@.len() <= bytes.len(),
            forall|k: int| 0 <= k < i ==> bytes@[at + k] == part@[k],
        decreases part@.len() - i,
    {
        if bytes[at + i] != part[i] {
            assert(bytes@.subrange(at as int, at + part@.len())[i as int] != part@[i as int]);
            return false;
        }
        i += 1;
    }
    assert(bytes@.subrange(at as int, at + part@.len()) == part@);
    true
}

/// Whether a reply has reached the shell prompt.
pub fn at_prompt(reply: &[u8]) -> (r: bool)
    ensures
        r == ends_with(reply@, prompt()),
{
    let tail = prompt_bytes();
    if reply.len() < 4 {
        return false;
    }
    assert(reply@.skip(reply@.len() - 4) == reply@.subrange(
        reply@.len() - 4,
        reply@.len() - 4 + 4,
    ));
    bytes_at(reply, tail.as_slice(), reply.len() - 4)
}

/// A copy of the bytes from `from` up to `to`.
fn bytes_of(bytes: &[u8], from: usize, to: usize) -> (out: Vec<u8>)
    requires
        from <= to <= bytes@.len(),
    ensures
        out@ == bytes@.subrange(from as int, to as int),
{
    let mut out: Vec<u8> = Vec::new();
    let mut i: usize = from;
    while i < to
        invariant
            from <= i <= to <= bytes@.len(),
            out@ == bytes@.subrange(from as int, i as int),
        decreases to - i,
    {
        assert(bytes@.subrange(from as int, i + 1) == bytes@.subrange(from as int, i as int).push(
            bytes@[i as int],
        ));
        out.push(bytes[i]);
        i += 1;
    }
    out
}

/// The body of a text reply: what the shell printed between the echo of the
/// command and the prompt.
pub fn parse_text_frame(frame: &[u8], command: &str) -> (r: Result<Vec<u8>, TextError>)
    ensures
        !ends_with(frame@, prompt()) <==> r matches Err(TextError::NoPrompt),
        (ends_with(frame@, prompt()) && !starts_with(before_prompt(frame@), echo_of(command@)))
            <==> r matches Err(TextError::NoEcho),
        (ends_with(frame@, prompt()) && starts_with(before_prompt(frame@), echo_of(command@))
            && names_unknown(lossy_utf8(body_of(frame@, command@)), first_word(command@)))
            <==> r matches Err(TextError::Unsupported(_)),
        r matches Err(TextError::Unsupported(word)) ==> word@ == first_word(command@),
        r matches Ok(body) ==> body@ == body_of(frame@, command@),
{
    if !at_prompt(frame) {
        return Err(TextError::NoPrompt);
    }
    let end: usize = frame.len() - 4;
    let without_prompt = bytes_of(frame, 0, end);
    assert(without_prompt@ == before_prompt(frame@));
    let spelled = command.as_bytes();
    let mut echo: Vec<u8> = bytes_of(spelled, 0, spelled.len());
    assert(spelled@.subrange(0, spelled@.len() as int) == spelled@);
    echo.push(0x0du8);
    echo.push(0x0au8);
    assert(echo@ == echo_of(command@));
    if without_prompt.len() < echo.len() {
        return Err(TextError::NoEcho);
    }
    assert(without_prompt@.take(echo@.len() as int) == without_prompt@.subrange(
        0,
        0int + echo@.len(),
    ));
    if !bytes_at(without_prompt.as_slice(), echo.as_slice(), 0) {
        return Err(TextError::NoEcho);
    }
    let body = bytes_of(without_prompt.as_slice(), echo.len(), without_prompt.len());
    assert(body@ == body_of(frame@, command@));
    let spoken = text::to_chars(command);
    let word = command_word(spoken.as_slice());
    let shown = lossy_text(body.as_slice());
    let reply = text::to_chars(shown.as_str());
    if reports_unknown(reply.as_slice(), word.as_slice()) {
        return Err(TextError::Unsupported(text::from_chars(word.as_slice())));
    }
    Ok(body)
}

/// The position of the first line that passes a test, or the number of lines.
pub open spec fn first_where(ls: Seq<Seq<char>>, test: spec_fn(Seq<char>) -> bool) -> int
    decreases ls.len(),
{
    if ls.len() == 0 || test(ls[0]) {
        0
    } else {
        1 + first_where(ls.drop_first(), test)
    }
}

/// The first line to pass is the one before which all fail.
proof fn lemma_first_where(ls: Seq<Seq<char>>, test: spec_fn(Seq<char>) -> bool, n: int)
    requires
        0 <= n <= ls.len(),
        forall|i: int| 0 <= i < n ==> !test(#[trigger] ls[i]),
        n < ls.len() ==> test(ls[n]),
    ensures
        first_where(ls, test) == n,
    decreases n,
{
    if n > 0 {
        let t = ls.drop_first();
        assert(!test(ls[0]));
        assert forall|i: int| 0 <= i < n - 1 implies !test(#[trigger] t[i]) by {
            assert(t[i] == ls[i + 1]);
        }
        lemma_first_where(t, test, n - 1);
    }
}

/// The trimmed first line that passes a test.
pub open spec fn trimmed_line_where(
    s: Seq<char>,
    test: spec_fn(Seq<char>) -> bool,
) -> Option<Seq<char>> {
    let n = first_where(text::lines_of(s), test);
    if n < text::lines_of(s).len() {
        Some(text::trimmed(text::lines_of(s)[n]))
    } else {
        None
    }
}

/// Whether a line holds anything but white space.
pub open spec fn is_solid_line(line: Seq<char>) -> bool {
    text::trimmed(line).len() > 0
}

/// Whether a line names the hardware revision.
pub open spec fn is_hardware_line(line: Seq<char>) -> bool {
    text::occurs_at(text::trimmed(line), "HW Version:"@, 0)
}

/// The first line of a text that is not blank, trimmed.
pub open spec fn first_line_of(s: Seq<char>) -> Option<Seq<char>> {
    trimmed_line_where(s, |l: Seq<char>| is_solid_line(l))
}

/// The hardware revision line of a version reply, trimmed.
pub open spec fn hardware_of(version: Seq<char>) -> Option<Seq<char>> {
    trimmed_line_where(version, |l: Seq<char>| is_hardware_line(l))
}

/// Which kind of line a search is after.
#[derive(Clone, Copy, PartialEq, Eq, Structural)]
enum Wanted {
    Solid,
    Hardware,
}

spec fn wanted_test(wanted: Wanted) -> spec_fn(Seq<char>) -> bool {
    match wanted {
        Wanted::Solid => |l: Seq<char>| is_solid_line(l),
        Wanted::Hardware => |l: Seq<char>| is_hardware_line(l),
    }
}

/// Searches a text for the first line of the wanted kind.
fn line_where(value: &[char], wanted: Wanted) -> (r: Option<Vec<char>>)
    ensures
        match r {
            Some(line) => trimmed_line_where(value@, wanted_test(wanted)) == Some(line@),
            None => trimmed_line_where(value@, wanted_test(wanted)) is None,
        },
{
    let all = text::lines(value);
    let prefix = text::to_chars("HW Version:");
    let ghost listed = text::lines_of(value@);
    let ghost test = wanted_test(wanted);
    let mut i: usize = 0;
    while i < all.len()
        invariant
            i <= all@.len(),
            prefix@ == "HW Version:"@,
            all@.map_values(|l: Vec<char>| l@) == listed,
            listed == text::lines_of(value@),
            test == wanted_test(wanted),
            forall|k: int| 0 <= k < i ==> !test(#[trigger] listed[k]),
        decreases all@.len() - i,
    {
        let line = text::trim(all[i].as_slice());
        assert(all@.map_values(|l: Vec<char>| l@)[i as int] == all@[i as int]@);
        let hit = match wanted {
            Wanted::Solid => line.len() > 0,
            Wanted::Hardware => text::stands_at(line.as_slice(), prefix.as_slice(), 0),
        };
        assert(hit == test(listed[i as int]));
        if hit {
            proof {
                lemma_first_where(listed, test, i as int);
            }
            return Some(line);
        }
        i += 1;
    }
    proof {
        lemma_first_where(listed, test, i as int);
    }
    None
}

/// The first line of a text that is not blank.
pub fn first_line(value: &[char]) -> (r: Option<Vec<char>>)
    ensures
        match r {
            Some(line) => first_line_of(value@) == Some(line@),
            None => first_line_of(value@) is None,
        },
{
    line_where(value, Wanted::Solid)
}

/// The level a line gives: a number before the unit, in either spelling of it.
pub open spec fn zero_in(line: Seq<char>) -> Option<int> {
    let t = text::trimmed(line);
    let n = t.len() - 3;
    if n >= 0 && (t.skip(n) == "dBm"@ || t.skip(n) == "DBM"@) {
        match text::spelled_int(text::trimmed(t.take(n))) {
            Some(v) => if i32::MIN <= v <= i32::MAX {
                Some(v)
            } else {
                None
            },
            None => None,
        }
    } else {
        None
    }
}

/// The level of the first line that gives one.
pub open spec fn zero_of(s: Seq<char>) -> Option<int> {
    let ls = text::lines_of(s);
    let n = first_where(ls, |l: Seq<char>| zero_in(l) is Some);
    if n < ls.len() {
        zero_in(ls[n])
    } else {
        None
    }
}

/// Why the reply to `zero` was refused.
#[derive(Clone, Copy, Debug, PartialEq, Eq, Structural)]
pub enum ZeroError {
    NotText,
    NoLevel,
}

/// The level one line gives.
fn zero_of_line(line: &[char]) -> (r: Option<i32>)
    ensures
        match r {
            Some(v) => zero_in(line@) == Some(v as int),
            None => zero_in(line@) is None,
        },
{
    let t = text::trim(line);
    if t.len() < 3 {
        return None;
    }
    let n: usize = t.len() - 3;
    let unit = text::to_chars("dBm");
    let shouted = text::to_chars("DBM");
    proof {
        reveal_strlit("dBm");
        reveal_strlit("DBM");
        assert(t@.skip(n as int) == t@.subrange(n as int, n + 3));
        assert(t@.take(n as int) == t@.subrange(0, n as int));
    }
    if text::stands_at(t.as_slice(), unit.as_slice(), n) || text::stands_at(
        t.as_slice(),
        shouted.as_slice(),
        n,
    ) {
        let head = text::slice_of(t.as_slice(), 0, n);
        let number = text::trim(head.as_slice());
        text::parse_i32(number.as_slice())
    } else {
        None
    }
}

/// The level, in dBm, that the reply to `zero` gives.
pub fn parse_zero(response: &[u8]) -> (r: Result<i32, ZeroError>)
    ensures
        !vstd::utf8::valid_utf8(response@) <==> r == Err::<i32, ZeroError>(ZeroError::NotText),
        r == Err::<i32, ZeroError>(ZeroError::NoLevel) <==> vstd::utf8::valid_utf8(response@)
            && zero_of(vstd::utf8::decode_utf8(response@)) is None,
        r matches Ok(v) ==> zero_of(vstd::utf8::decode_utf8(response@)) == Some(v as int),
{
    let decoded = match utf8_text(response) {
        Some(t) => t,
        None => return Err(ZeroError::NotText),
    };
    let chars = text::to_chars(decoded.as_str());
    let all = text::lines(chars.as_slice());
    let ghost listed = text::lines_of(chars@);
    let ghost test = |l: Seq<char>| zero_in(l) is Some;
    let mut i: usize = 0;
    while i < all.len()
        invariant
            i <= all@.len(),
            vstd::utf8::valid_utf8(response@),
            chars@ == vstd::utf8::decode_utf8(response@),
            all@.map_values(|l: Vec<char>| l@) == listed,
            listed == text::lines_of(chars@),
            test == (|l: Seq<char>| zero_in(l) is Some),
            forall|k: int| 0 <= k < i ==> !test(#[trigger] listed[k]),
        decreases all@.len() - i,
    {
        assert(all@.map_values(|l: Vec<char>| l@)[i as int] == all@[i as int]@);
        let found = zero_of_line(all[i].as_slice());
        if let Some(v) = found {
            proof {
                assert(test(listed[i as int]));
                lemma_first_where(listed, test, i as int);
            }
            return Ok(v);
        }
        assert(!test(listed[i as int]));
        i += 1;
    }
    proof {
        lemma_first_where(listed, test, i as int);
    }
    Err(ZeroError::NoLevel)
}

/// What an analyser says of itself.
#[derive(Debug)]
pub struct Identity {
    pub firmware: String,
    pub hardware: Option<String>,
    pub info: String,
    pub help: String,
    pub board: String,
    pub zero_dbm: i32,
    pub model: Model,
}

/// Why the replies do not identify an analyser.
#[derive(Clone, Copy, Debug, PartialEq, Eq, Structural)]
pub enum IdentityError {
    VersionNotText,
    InfoNotText,
    HelpNotText,
    NotTinySa,
    ZeroNotText,
    NoZero,
}

impl IdentityError {
    pub open spec fn text(self) -> Seq<char> {
        match self {
            IdentityError::VersionNotText => "tinySA version response was not text"@,
            IdentityError::InfoNotText => "tinySA info response was not text"@,
            IdentityError::HelpNotText => "tinySA help response was not text"@,
            IdentityError::NotTinySa => "serial device did not identify itself as a tinySA"@,
            IdentityError::ZeroNotText => "tinySA zero response was not text"@,
            IdentityError::NoZero => "tinySA zero response did not contain a dBm value"@,
        }
    }

    /// The sentence shown for the error.
    pub fn message(self) -> (t: &'static str)
        ensures
            t@ == self.text(),
    {
        match self {
            IdentityError::VersionNotText => "tinySA version response was not text",
            IdentityError::InfoNotText => "tinySA info response was not text",
            IdentityError::HelpNotText => "tinySA help response was not text",
            IdentityError::NotTinySa => "serial device did not identify itself as a tinySA",
            IdentityError::ZeroNotText => "tinySA zero response was not text",
            IdentityError::NoZero => "tinySA zero response did not contain a dBm value",
        }
    }
}

/// The model named in the version and info replies, both in upper case.
pub open spec fn model_of(upper: Seq<char>) -> Model {
    if !text::has(upper, "TINYSA4"@) && !text::has(upper, "TINYSA ULTRA"@) {
        Model::Basic
    } else if text::has(upper, "ZS405"@) || text::has(upper, "V0.4.5.1"@) {
        Model::Zs405
    } else if text::has(upper, "ZS406"@) || text::has(upper, "V0.4.6"@) {
        Model::Zs406
    } else if text::has(upper, "ZS407"@) || text::has(upper, "V0.5.4"@) || text::has(
        upper,
        "MAX2871"@,
    ) {
        Model::Zs407
    } else {
        Model::UltraUnknown
    }
}

/// The version and info replies as one text in upper case.
pub open spec fn combined_upper(version: Seq<char>, info: Seq<char>) -> Seq<char> {
    text::upper(version.push('\n') + info)
}

/// The firmware line: the first line of the version reply, where it names a tinySA.
pub open spec fn firmware_of(version: Seq<char>) -> Option<Seq<char>> {
    match first_line_of(version) {
        Some(line) => if text::has(text::lower(line), "tinysa"@) {
            Some(line)
        } else {
            None
        },
        None => None,
    }
}

/// Whether an identity is what the four decoded replies say.
pub open spec fn identifies(
    id: Identity,
    version: Seq<char>,
    info: Seq<char>,
    help: Seq<char>,
    zero: Seq<char>,
) -> bool {
    &&& firmware_of(version) == Some(id.firmware@)
    &&& match id.hardware {
        Some(line) => hardware_of(version) == Some(line@),
        None => hardware_of(version) is None,
    }
    &&& id.info@ == info
    &&& id.help@ == help
    &&& id.model == model_of(combined_upper(version, info))
    &&& id.board@ == match first_line_of(info) {
        Some(line) => line,
        None => id.model.title(),
    }
    &&& zero_of(zero) == Some(id.zero_dbm as int)
}

/// Whether a literal stands in a text.
fn mentions(hay: &[char], needle: &str) -> (r: bool)
    ensures
        r == text::has(hay@, needle@),
{
    let n = text::to_chars(needle);
    text::contains(hay, n.as_slice())
}

/// The model the version and info replies name.
pub fn read_model(version: &[char], info: &[char]) -> (model: Model)
    ensures
        model == model_of(combined_upper(version@, info@)),
{
    let mut combined: Vec<char> = Vec::new();
    text::push_all(&mut combined, version);
    combined.push('\n');
    text::push_all(&mut combined, info);
    assert(combined@ == version@.push('\n') + info@);
    let upper_text = text::to_upper(combined.as_slice());
    let u = upper_text.as_slice();
    if !mentions(u, "TINYSA4") && !mentions(u, "TINYSA ULTRA") {
        Model::Basic
    } else if mentions(u, "ZS405") || mentions(u, "V0.4.5.1") {
        Model::Zs405
    } else if mentions(u, "ZS406") || mentions(u, "V0.4.6") {
        Model::Zs406
    } else if mentions(u, "ZS407") || mentions(u, "V0.5.4") || mentions(u, "MAX2871") {
        Model::Zs407
    } else {
        Model::UltraUnknown
    }
}

/// Why four replies do not identify an analyser, the first reason that applies.
pub open spec fn identity_fault(
    version: Seq<u8>,
    info: Seq<u8>,
    help: Seq<u8>,
    zero: Seq<u8>,
) -> Option<IdentityError> {
    if !vstd::utf8::valid_utf8(version) {
        Some(IdentityError::VersionNotText)
    } else if !vstd::utf8::valid_utf8(info) {
        Some(IdentityError::InfoNotText)
    } else if !vstd::utf8::valid_utf8(help) {
        Some(IdentityError::HelpNotText)
    } else if firmware_of(vstd::utf8::decode_utf8(version)) is None {
        Some(IdentityError::NotTinySa)
    } else if !vstd::utf8::valid_utf8(zero) {
        Some(IdentityError::ZeroNotText)
    } else if zero_of(vstd::utf8::decode_utf8(zero)) is None {
        Some(IdentityError::NoZero)
    } else {
        None
    }
}

/// Reads the identity of an analyser from its replies to `version`, `info`,
/// `help` and `zero`.
pub fn parse_identity(version: &[u8], info: &[u8], help: &[u8], zero: &[u8]) -> (r: Result<
    Identity,
    IdentityError,
>)
    ensures
        match r {
            Err(e) => identity_fault(version@, info@, help@, zero@) == Some(e),
            Ok(id) => {
                &&& identity_fault(version@, info@, help@, zero@) is None
                &&& identifies(
                    id,
                    vstd::utf8::decode_utf8(version@),
                    vstd::utf8::decode_utf8(info@),
                    vstd::utf8::decode_utf8(help@),
                    vstd::utf8::decode_utf8(zero@),
                )
            },
        },
{
    let version_text = match utf8_text(version) {
        Some(t) => t,
        None => return Err(IdentityError::VersionNotText),
    };
    let info_text = match utf8_text(info) {
        Some(t) => t,
        None => return Err(IdentityError::InfoNotText),
    };
    let help_text = match utf8_text(help) {
        Some(t) => t,
        None => return Err(IdentityError::HelpNotText),
    };
    let version_chars = text::to_chars(version_text.as_str());
    let info_chars = text::to_chars(info_text.as_str());
    let firmware = match first_line(version_chars.as_slice()) {
        Some(line) => {
            let folded = text::to_lower(line.as_slice());
            if !mentions(folded.as_slice(), "tinysa") {
                return Err(IdentityError::NotTinySa);
            }
            line
        },
        None => return Err(IdentityError::NotTinySa),
    };
    let model = read_model(version_chars.as_slice(), info_chars.as_slice());
    let hardware = match line_where(version_chars.as_slice(), Wanted::Hardware) {
        Some(line) => Some(text::from_chars(line.as_slice())),
        None => None,
    };
    let board = match first_line(info_chars.as_slice()) {
        Some(line) => text::from_chars(line.as_slice()),
        None => model.name().to_string(),
    };
    let zero_dbm: i32 = match parse_zero(zero) {
        Ok(v) => v,
        Err(ZeroError::NotText) => return Err(IdentityError::ZeroNotText),
        Err(ZeroError::NoLevel) => return Err(IdentityError::NoZero),
    };
    Ok(
        Identity {
            firmware: text::from_chars(firmware.as_slice()),
            hardware,
            info: info_text,
            help: help_text,
            board,
            zero_dbm,
            model,
        },
    )
}

/// Why a scan frame was refused.
#[derive(Clone, Copy, Debug, PartialEq, Eq, Structural)]
pub enum FrameError {
    NoOpeningTag,
    /// The frame stops where this record should start.
    Ended { index: u32, points: u32 },
    /// The frame closes where this record should start.
    Closed { index: u32, points: u32 },
    BadTag { index: u32, tag: u8 },
    /// The frame stops inside this record.
    CutShort { index: u32 },
    NoClosingTag,
    TrailingData,
}

impl FrameError {
    pub open spec fn text(self) -> Seq<char> {
        match self {
            FrameError::NoOpeningTag => "tinySA scan frame is missing its opening tag"@,
            FrameError::Ended { index, points } => "tinySA scan ended after "@ + text::decimal(
                index as nat,
            ) + " of "@ + text::decimal(points as nat) + " records"@,
            FrameError::Closed { index, points } => "tinySA scan closed after "@ + text::decimal(
                index as nat,
            ) + " of "@ + text::decimal(points as nat) + " records"@,
            FrameError::BadTag { index, tag } => "tinySA scan record "@ + text::decimal(
                index as nat,
            ) + " has malformed tag 0x"@ + text::hex_byte(tag),
            FrameError::CutShort { index } => "tinySA scan record "@ + text::decimal(index as nat)
                + " ended early"@,
            FrameError::NoClosingTag => "tinySA scan frame is missing its closing tag"@,
            FrameError::TrailingData => "tinySA scan frame has trailing data"@,
        }
    }

    /// The sentence shown for the error.
    pub fn message(self) -> (out: String)
        ensures
            out@ == self.text(),
    {
        let mut t: Vec<char> = Vec::new();
        match self {
            FrameError::NoOpeningTag => {
                text::push_str(&mut t, "tinySA scan frame is missing its opening tag");
            },
            FrameError::Ended { index, points } => {
                text::push_str(&mut t, "tinySA scan ended after ");
                text::push_decimal(&mut t, index as u64);
                text::push_str(&mut t, " of ");
                text::push_decimal(&mut t, points as u64);
                text::push_str(&mut t, " records");
            },
            FrameError::Closed { index, points } => {
                text::push_str(&mut t, "tinySA scan closed after ");
                text::push_decimal(&mut t, index as u64);
                text::push_str(&mut t, " of ");
                text::push_decimal(&mut t, points as u64);
                text::push_str(&mut t, " records");
            },
            FrameError::BadTag { index, tag } => {
                text::push_str(&mut t, "tinySA scan record ");
                text::push_decimal(&mut t, index as u64);
                text::push_str(&mut t, " has malformed tag 0x");
                let hex = text::hex_text(tag);
                text::push_all(&mut t, hex.as_slice());
            },
            FrameError::CutShort { index } => {
                text::push_str(&mut t, "tinySA scan record ");
                text::push_decimal(&mut t, index as u64);
                text::push_str(&mut t, " ended early");
            },
            FrameError::NoClosingTag => {
                text::push_str(&mut t, "tinySA scan frame is missing its closing tag");
            },
            FrameError::TrailingData => {
                text::push_str(&mut t, "tinySA scan frame has trailing data");
            },
        }
        assert(t@ == self.text());
        text::from_chars(t.as_slice())
    }
}

/// The first fault of a frame from record `index` on.
pub open spec fn record_fault(frame: Seq<u8>, points: u32, index: int) -> Option<FrameError>
    decreases points - index,
{
    let at = 1 + 3 * index;
    if index >= points {
        if at >= frame.len() || frame[at] != 0x7d {
            Some(FrameError::NoClosingTag)
        } else if frame.len() != at + 1 {
            Some(FrameError::TrailingData)
        } else {
            None
        }
    } else if at >= frame.len() {
        Some(FrameError::Ended { index: index as u32, points })
    } else if frame[at] == 0x7d {
        Some(FrameError::Closed { index: index as u32, points })
    } else if frame[at] != 0x78 {
        Some(FrameError::BadTag { index: index as u32, tag: frame[at] })
    } else if at + 3 > frame.len() {
        Some(FrameError::CutShort { index: index as u32 })
    } else {
        record_fault(frame, points, index + 1)
    }
}

/// The fault a scan frame of so many points is refused for.
pub open spec fn frame_fault(frame: Seq<u8>, points: u32) -> Option<FrameError> {
    if frame.len() == 0 || frame[0] != 0x7b {
        Some(FrameError::NoOpeningTag)
    } else {
        record_fault(frame, points, 0)
    }
}

/// Two bytes as a signed little-endian number.
pub open spec fn raw_level(low: u8, high: u8) -> int {
    let u = low + 256 * high;
    if u >= 0x8000 {
        u - 0x1_0000
    } else {
        u
    }
}

/// The level of a record, in micro-decibels: thirty-seconds of a decibel above
/// the analyser's own zero.
pub open spec fn record_level(frame: Seq<u8>, index: int, zero_dbm: i32) -> int {
    raw_level(frame[2 + 3 * index], frame[3 + 3 * index]) * 31_250 - zero_dbm * 1_000_000
}

/// The levels of a scan frame, in micro-decibels.
pub fn parse_scan_frame(frame: &[u8], points: u32, zero_dbm: i32) -> (r: Result<
    Vec<i64>,
    FrameError,
>)
    ensures
        match r {
            Ok(levels) => {
                &&& frame_fault(frame@, points) is None
                &&& levels@.len() == points
                &&& forall|i: int|
                    0 <= i < points ==> #[trigger] levels@[i] == record_level(frame@, i, zero_dbm)
            },
            Err(e) => frame_fault(frame@, points) == Some(e),
        },
{
    if frame.len() == 0 || frame[0] != 0x7b {
        return Err(FrameError::NoOpeningTag);
    }
    let mut levels: Vec<i64> = Vec::new();
    let mut index: u32 = 0;
    let mut offset: usize = 1;
    while index < points
        invariant
            index <= points,
            offset == 1 + 3 * index,
            offset <= frame.len(),
            frame_fault(frame@, points) == record_fault(frame@, points, index as int),
            levels@.len() == index,
            forall|i: int|
                0 <= i < index ==> #[trigger] levels@[i] == record_level(frame@, i, zero_dbm),
        decreases points - index,
    {
        if offset >= frame.len() {
            return Err(FrameError::Ended { index, points });
        }
        let tag: u8 = frame[offset];
        if tag == 0x7d {
            return Err(FrameError::Closed { index, points });
        }
        if tag != 0x78 {
            return Err(FrameError::BadTag { index, tag });
        }
        if frame.len() - offset < 3 {
            return Err(FrameError::CutShort { index });
        }
        let raw: i64 = frame[offset + 1] as i64 + 256 * (frame[offset + 2] as i64);
        let signed: i64 = if raw >= 0x8000 {
            raw - 0x1_0000
        } else {
            raw
        };
        levels.push(signed * 31_250 - (zero_dbm as i64) * 1_000_000);
        offset += 3;
        index += 1;
    }
    if offset >= frame.len() || frame[offset] != 0x7d {
        return Err(FrameError::NoClosingTag);
    }
    if frame.len() != offset + 1 {
        return Err(FrameError::TrailingData);
    }
    Ok(levels)
}

/// The distance between neighbouring single-precision numbers around a whole number.
pub open spec fn single_ulp(n: nat) -> nat
    decreases n,
{
    if n < 0x100_0000 {
        1
    } else {
        2 * single_ulp(n / 2)
    }
}

/// A whole number rounded to single precision: to the nearest number with a
/// significand of twenty-four bits, and to the even one of two that are equally near.
pub open spec fn to_single(n: nat) -> nat {
    let u = single_ulp(n);
    let q = n / u;
    let r = n % u;
    if 2 * r > u || (2 * r == u && q % 2 == 1) {
        (q + 1) * u
    } else {
        q * u
    }
}

/// How far point `index` lies above the start of a scan: the whole-hertz step
/// times the index, both and their product in single precision.
pub open spec fn scan_offset(step: nat, index: nat) -> nat {
    let product = to_single(to_single(step) * to_single(index));
    if product > u64::MAX {
        u64::MAX as nat
    } else {
        product
    }
}

/// The spacing is at least one and never exceeds the number it belongs to.
proof fn lemma_ulp(n: nat)
    ensures
        1 <= single_ulp(n),
        n > 0 ==> single_ulp(n) <= n,
    decreases n,
{
    if n >= 0x100_0000 {
        lemma_ulp(n / 2);
    }
}

/// Rounding to single precision at most doubles a number.
proof fn lemma_single_bound(n: nat)
    ensures
        to_single(n) <= 2 * n,
{
    lemma_ulp(n);
    let u = single_ulp(n);
    if n == 0 {
        assert(u == 1);
    } else {
        let q = n / u;
        let r = n % u;
        assert(n == q * u + r && 0 <= r < u) by (nonlinear_arith)
            requires
                q == n / u,
                r == n % u,
                u > 0,
        ;
        assert((q + 1) * u == q * u + u) by (nonlinear_arith);
        assert(q * u >= 0) by (nonlinear_arith);
    }
}

/// The spacing around a whole number.
fn ulp_of(n: u128) -> (u: u128)
    ensures
        u == single_ulp(n as nat),
        1 <= u,
        n > 0 ==> u <= n,
    decreases n,
{
    if n < 0x100_0000 {
        1
    } else {
        let half = ulp_of(n / 2);
        2 * half
    }
}

/// A whole number rounded to single precision.
fn single(n: u128) -> (r: u128)
    requires
        n <= 0x1_0000_0000_0000_0000_0000_0000_0000,
    ensures
        r == to_single(n as nat),
        r <= 2 * n,
{
    let u = ulp_of(n);
    proof {
        lemma_single_bound(n as nat);
    }
    let q: u128 = n / u;
    let rest: u128 = n % u;
    assert(n == q * u + rest && 0 <= rest < u) by (nonlinear_arith)
        requires
            q == n / u,
            rest == n % u,
            u > 0,
    ;
    assert((q + 1) * u == q * u + u) by (nonlinear_arith);
    assert(q * u >= 0) by (nonlinear_arith);
    if 2 * rest > u || (2 * rest == u && q % 2 == 1) {
        (q + 1) * u
    } else {
        q * u
    }
}

/// A scan point never lies further out than eight times the step times its index.
proof fn lemma_offset_bound(step: nat, index: nat)
    ensures
        scan_offset(step, index) <= 8 * (step * index),
{
    lemma_single_bound(step);
    lemma_single_bound(index);
    let a = to_single(step);
    let b = to_single(index);
    lemma_single_bound(a * b);
    assert(a * b <= 4 * (step * index)) by (nonlinear_arith)
        requires
            a <= 2 * step,
            b <= 2 * index,
    ;
}

/// The points of a scan below two to the sixtieth hertz are all representable.
pub proof fn lemma_scan_fits(start_hz: u64, stop_hz: u64, points: u32)
    requires
        start_hz <= stop_hz <= 0x1000_0000_0000_0000,
        points > 0,
    ensures
        forall|i: nat|
            i < points ==> start_hz + #[trigger] scan_offset(
                ((stop_hz - start_hz) as nat) / (points as nat),
                i,
            ) <= u64::MAX,
{
    let span = (stop_hz - start_hz) as nat;
    let step = span / (points as nat);
    assert forall|i: nat| i < points implies start_hz + #[trigger] scan_offset(step, i)
        <= u64::MAX by {
        lemma_offset_bound(step, i);
        assert(step * i <= span) by (nonlinear_arith)
            requires
                step == span / (points as nat),
                0 <= i < points,
        ;
    }
}

/// The frequencies the firmware measures for a scan: it divides the span into
/// whole-hertz steps and places the points in single precision.
pub fn scan_frequencies(start_hz: u64, stop_hz: u64, points: u32) -> (out: Vec<u64>)
    requires
        forall|i: nat|
            i < points && start_hz <= stop_hz ==> start_hz + #[trigger] scan_offset(
                ((stop_hz - start_hz) as nat) / (points as nat),
                i,
            ) <= u64::MAX,
    ensures
        points == 0 || stop_hz < start_hz ==> out@.len() == 0,
        points > 0 && start_hz <= stop_hz ==> {
            &&& out@.len() == points
            &&& forall|i: int|
                0 <= i < points ==> #[trigger] out@[i] == start_hz + scan_offset(
                    ((stop_hz - start_hz) as nat) / (points as nat),
                    i as nat,
                )
        },
{
    let mut out: Vec<u64> = Vec::new();
    if points == 0 || stop_hz < start_hz {
        return out;
    }
    let whole: u64 = (stop_hz - start_hz) / points as u64;
    let step: u128 = single(whole as u128);
    let ghost step_nat = ((stop_hz - start_hz) as nat) / (points as nat);
    assert(whole == step_nat);
    let mut index: u32 = 0;
    while index < points
        invariant
            index <= points,
            points > 0,
            start_hz <= stop_hz,
            step == to_single(step_nat),
            step <= 2 * u64::MAX,
            step_nat == ((stop_hz - start_hz) as nat) / (points as nat),
            forall|i: nat|
                i < points && start_hz <= stop_hz ==> start_hz + #[trigger] scan_offset(
                    ((stop_hz - start_hz) as nat) / (points as nat),
                    i,
                ) <= u64::MAX,
            out@.len() == index,
            forall|i: int|
                0 <= i < index ==> #[trigger] out@[i] == start_hz + scan_offset(
                    step_nat,
                    i as nat,
                ),
        decreases points - index,
    {
        let at: u128 = single(index as u128);
        assert(step * at <= 0x1_0000_0000_0000_0000_0000_0000_0000) by (nonlinear_arith)
            requires
                step <= 2 * u64::MAX,
                at <= 2 * u32::MAX,
        ;
        assert(0 <= step * at) by (nonlinear_arith);
        let product: u128 = single(step * at);
        assert(product == to_single((to_single(step_nat) * to_single(index as nat)) as nat));
        let offset: u64 = if product > u64::MAX as u128 {
            u64::MAX
        } else {
            product as u64
        };
        assert(offset == scan_offset(step_nat, index as nat));
        out.push(start_hz + offset);
        index += 1;
    }
    out
}

/// A frame of so many points is accepted where it is an opening tag, a tagged record of
/// two bytes for every point and a closing tag, and nothing else.
pub proof fn law_a_frame_is_its_records(frame: Seq<u8>, points: u32)
    ensures
        frame_fault(frame, points) is None <==> {
            &&& frame.len() == 2 + 3 * points
            &&& frame[0] == 0x7b
            &&& frame[frame.len() - 1] == 0x7d
            &&& forall|i: int| 0 <= i < points ==> frame[#[trigger] (3 * i) + 1] == 0x78
        },
{
    if frame.len() > 0 && frame[0] == 0x7b {
        lemma_records(frame, points, 0);
    }
}

proof fn lemma_records(frame: Seq<u8>, points: u32, index: int)
    requires
        0 <= index <= points,
    ensures
        record_fault(frame, points, index) is None <==> {
            &&& frame.len() == 2 + 3 * points
            &&& frame[frame.len() - 1] == 0x7d
            &&& forall|i: int| index <= i < points ==> frame[#[trigger] (3 * i) + 1] == 0x78
        },
    decreases points - index,
{
    if index < points {
        lemma_records(frame, points, index + 1);
        let at = (3 * index) + 1;
        if frame.len() == 2 + 3 * points && (forall|i: int|
            index + 1 <= i < points ==> frame[#[trigger] (3 * i) + 1] == 0x78) && frame[at]
            == 0x78 {
            assert forall|i: int| index <= i < points implies frame[#[trigger] (3 * i) + 1]
                == 0x78 by {}
        }
        if forall|i: int| index <= i < points ==> frame[#[trigger] (3 * i) + 1] == 0x78 {
            assert(frame[(3 * index) + 1] == 0x78);
        }
    }
}

/// What is told of a frame that is refused is true of the first record at fault: every
/// record before it has its tag.
pub proof fn law_a_frame_is_refused_at_its_first_fault(frame: Seq<u8>, points: u32)
    ensures
        match frame_fault(frame, points) {
            None => true,
            Some(FrameError::NoOpeningTag) => frame.len() == 0 || frame[0] != 0x7b,
            Some(FrameError::Ended { index, points: of }) => index < points && of == points
                && frame.len() == 1 + 3 * index && tagged_before(frame, index as int),
            Some(FrameError::Closed { index, points: of }) => index < points && of == points
                && frame.len() > 1 + 3 * index && frame[1 + 3 * index as int] == 0x7d
                && tagged_before(frame, index as int),
            Some(FrameError::BadTag { index, tag }) => index < points && frame.len() > 1 + 3 * index
                && frame[1 + 3 * index as int] == tag && tag != 0x78 && tag != 0x7d
                && tagged_before(frame, index as int),
            Some(FrameError::CutShort { index }) => index < points && 1 + 3 * index < frame.len()
                < 4 + 3 * index && frame[1 + 3 * index as int] == 0x78 && tagged_before(
                frame,
                index as int,
            ),
            Some(FrameError::NoClosingTag) => tagged_before(frame, points as int) && (frame.len()
                == 1 + 3 * points || frame[1 + 3 * points as int] != 0x7d),
            Some(FrameError::TrailingData) => tagged_before(frame, points as int) && frame.len() > 2
                + 3 * points && frame[1 + 3 * points as int] == 0x7d,
        },
{
    if frame.len() > 0 && frame[0] == 0x7b {
        lemma_first_fault(frame, points, 0);
    }
}

/// Whether so many records at the start of a frame are there with their tags.
pub open spec fn tagged_before(frame: Seq<u8>, index: int) -> bool {
    &&& frame.len() >= 1 + 3 * index
    &&& forall|i: int| 0 <= i < index ==> frame[#[trigger] (3 * i) + 1] == 0x78
}

proof fn lemma_first_fault(frame: Seq<u8>, points: u32, index: int)
    requires
        0 <= index <= points,
        tagged_before(frame, index),
    ensures
        match record_fault(frame, points, index) {
            None => true,
            Some(FrameError::NoOpeningTag) => false,
            Some(FrameError::Ended { index, points: of }) => index < points && of == points
                && frame.len() == 1 + 3 * index && tagged_before(frame, index as int),
            Some(FrameError::Closed { index, points: of }) => index < points && of == points
                && frame.len() > 1 + 3 * index && frame[1 + 3 * index as int] == 0x7d
                && tagged_before(frame, index as int),
            Some(FrameError::BadTag { index, tag }) => index < points && frame.len() > 1 + 3 * index
                && frame[1 + 3 * index as int] == tag && tag != 0x78 && tag != 0x7d
                && tagged_before(frame, index as int),
            Some(FrameError::CutShort { index }) => index < points && 1 + 3 * index < frame.len()
                < 4 + 3 * index && frame[1 + 3 * index as int] == 0x78 && tagged_before(
                frame,
                index as int,
            ),
            Some(FrameError::NoClosingTag) => tagged_before(frame, points as int) && (frame.len()
                == 1 + 3 * points || frame[1 + 3 * points as int] != 0x7d),
            Some(FrameError::TrailingData) => tagged_before(frame, points as int) && frame.len() > 2
                + 3 * points && frame[1 + 3 * points as int] == 0x7d,
        },
    decreases points - index,
{
    let at = 1 + 3 * index;
    if index < points && at < frame.len() && frame[at] == 0x78 && at + 3 <= frame.len() {
        assert(tagged_before(frame, index + 1)) by {
            assert forall|i: int| 0 <= i < index + 1 implies frame[#[trigger] (3 * i) + 1]
                == 0x78 by {}
        }
        lemma_first_fault(frame, points, index + 1);
    }
}

/// The two bytes of a record are a signed number, the low byte first, of thirty-seconds
/// of a decibel above the zero of the analyser.
pub proof fn law_a_record_reads_in_thirty_seconds_of_a_decibel(
    frame: Seq<u8>,
    index: int,
    zero_dbm: i32,
    raw: int,
)
    requires
        -0x8000 <= raw < 0x8000,
        ({
            let unsigned = if raw < 0 {
                raw + 0x1_0000
            } else {
                raw
            };
            frame[2 + 3 * index] == unsigned % 256 && frame[3 + 3 * index] == unsigned / 256
        }),
    ensures
        32 * record_level(frame, index, zero_dbm) == 1_000_000 * (raw - 32 * zero_dbm),
{
}

/// A text reply that is the echo of the command, a body and the prompt has that body.
pub proof fn law_a_text_reply_is_read_back(command: Seq<char>, body: Seq<u8>)
    ensures
        ({
            let frame = vstd::utf8::encode_utf8(command) + seq![0x0du8, 0x0au8] + body
                + seq![0x63u8, 0x68u8, 0x3eu8, 0x20u8];
            &&& ends_with(frame, prompt())
            &&& starts_with(before_prompt(frame), echo_of(command))
            &&& body_of(frame, command) == body
        }),
{
    let frame = vstd::utf8::encode_utf8(command) + seq![0x0du8, 0x0au8] + body
        + seq![0x63u8, 0x68u8, 0x3eu8, 0x20u8];
    let echo = echo_of(command);
    assert(frame.skip(frame.len() - 4) == prompt());
    assert(before_prompt(frame) == echo + body);
    assert((echo + body).take(echo.len() as int) == echo);
    assert((echo + body).skip(echo.len() as int) == body);
}

/// The first word of a command is what stands between the blanks before it and the next.
pub proof fn law_the_first_word_stands_between_blanks(
    blanks: Seq<char>,
    word: Seq<char>,
    rest: Seq<char>,
)
    requires
        forall|i: int| 0 <= i < blanks.len() ==> #[trigger] text::is_ascii_space(blanks[i]),
        word.len() > 0,
        forall|i: int| 0 <= i < word.len() ==> !#[trigger] text::is_ascii_space(word[i]),
        rest.len() > 0 ==> text::is_ascii_space(rest[0]),
    ensures
        first_word(blanks + word + rest) == word,
{
    let command = blanks + word + rest;
    let is_blank = |c: char| text::is_ascii_space(c);
    let is_solid = |c: char| !text::is_ascii_space(c);
    assert forall|i: int| 0 <= i < blanks.len() implies is_blank(#[trigger] command[i]) by {
        assert(text::is_ascii_space(blanks[i]));
    }
    assert(command[blanks.len() as int] == word[0]);
    assert(!text::is_ascii_space(word[0]));
    lemma_run_length(command, is_blank, blanks.len() as int);
    let tail = command.skip(blanks.len() as int);
    assert(tail == word + rest);
    assert forall|i: int| 0 <= i < word.len() implies is_solid(#[trigger] tail[i]) by {
        assert(!text::is_ascii_space(word[i]));
    }
    if rest.len() > 0 {
        assert(tail[word.len() as int] == rest[0]);
    }
    lemma_run_length(tail, is_solid, word.len() as int);
    assert(tail.take(word.len() as int) == word);
}

/// The line that a search finds passes its test, and no line before it does.
pub proof fn law_a_search_finds_the_first(ls: Seq<Seq<char>>, test: spec_fn(Seq<char>) -> bool)
    ensures
        ({
            let n = first_where(ls, test);
            &&& 0 <= n <= ls.len()
            &&& n < ls.len() ==> test(ls[n])
            &&& forall|i: int| 0 <= i < n ==> !test(#[trigger] ls[i])
        }),
    decreases ls.len(),
{
    if ls.len() > 0 && !test(ls[0]) {
        let t = ls.drop_first();
        law_a_search_finds_the_first(t, test);
        let n = first_where(ls, test);
        assert forall|i: int| 0 <= i < n implies !test(#[trigger] ls[i]) by {
            if i > 0 {
                assert(t[i - 1] == ls[i]);
            }
        }
        if n < ls.len() {
            assert(t[n - 1] == ls[n]);
        }
    }
}

/// The spacing of single-precision numbers leaves twenty-four bits before it.
proof fn lemma_ulp_leaves_bits(n: nat)
    ensures
        n < 0x100_0000 ==> single_ulp(n) == 1,
        n >= 0x100_0000 ==> 0x80_0000 * single_ulp(n) <= n,
        n < 0x100_0000 * single_ulp(n),
    decreases n,
{
    if n >= 0x100_0000 {
        lemma_ulp_leaves_bits(n / 2);
    }
}

/// Single precision keeps whole numbers below two to the twenty-fourth as they are, and
/// others to within one part in that many.
pub proof fn law_single_precision_keeps_twenty_four_bits(n: nat)
    ensures
        n < 0x100_0000 ==> to_single(n) == n,
        -n <= (to_single(n) - n) * 0x100_0000 <= n,
{
    lemma_ulp_leaves_bits(n);
    lemma_ulp(n);
    let u = single_ulp(n);
    let q = n / u;
    let r = n % u;
    vstd::arithmetic::div_mod::lemma_fundamental_div_mod(n as int, u as int);
    vstd::arithmetic::div_mod::lemma_mod_bound(n as int, u as int);
    assert(n == q * u + r) by (nonlinear_arith)
        requires
            n == u * q + r,
    ;
    assert((q + 1) * u == q * u + u) by (nonlinear_arith);
    assert(q * u >= 0) by (nonlinear_arith);
    if n < 0x100_0000 {
        assert(q * 1 == q);
    }
}

/// The points of a scan lie one whole-hertz step apart from its start, where the last of
/// them lies less than two to the twenty-fourth hertz above it.
pub proof fn law_near_points_are_exact(step: nat, index: nat)
    requires
        step < 0x100_0000,
        index < 0x100_0000,
        step * index < 0x100_0000,
    ensures
        scan_offset(step, index) == step * index,
{
    law_single_precision_keeps_twenty_four_bits(step);
    law_single_precision_keeps_twenty_four_bits(index);
    law_single_precision_keeps_twenty_four_bits(step * index);
}

/// Every point of a scan lies within three parts in ten million of its step times its
/// place.
pub proof fn law_points_lie_where_they_belong(step: nat, index: nat)
    requires
        step * index <= 0x4000_0000_0000_0000,
    ensures
        ({
            let off = scan_offset(step, index) - step * index;
            -3 * (step * index) <= off * 10_000_000 <= 3 * (step * index)
        }),
{
    let a = to_single(step);
    let b = to_single(index);
    let p = (a * b) as nat;
    let t = step * index;
    law_single_precision_keeps_twenty_four_bits(step);
    law_single_precision_keeps_twenty_four_bits(index);
    assert(p >= 0) by (nonlinear_arith)
        requires
            p == a * b,
    ;
    law_single_precision_keeps_twenty_four_bits(p);
    let k: int = 0x100_0000;
    assert((k - 1) * step <= a * k <= (k + 1) * step) by (nonlinear_arith)
        requires
            -step <= (a - step) * k <= step,
            k == 0x100_0000,
    ;
    assert((k - 1) * index <= b * k <= (k + 1) * index) by (nonlinear_arith)
        requires
            -index <= (b - index) * k <= index,
            k == 0x100_0000,
    ;
    assert(((k - 1) * step) * ((k - 1) * index) <= (a * k) * (b * k) <= ((k + 1) * step) * ((k + 1)
        * index)) by (nonlinear_arith)
        requires
            0 <= (k - 1) * step <= a * k <= (k + 1) * step,
            0 <= (k - 1) * index <= b * k <= (k + 1) * index,
    ;
    assert((a * k) * (b * k) == (k * k) * (a * b)) by (nonlinear_arith);
    assert(((k - 1) * step) * ((k - 1) * index) == ((k - 1) * (k - 1)) * (step * index))
        by (nonlinear_arith);
    assert(((k + 1) * step) * ((k + 1) * index) == ((k + 1) * (k + 1)) * (step * index))
        by (nonlinear_arith);
    assert(a * b == p);
    let kk: int = 0x1_0000_0000_0000;
    assert(k * k == kk);
    assert((k - 1) * (k - 1) == 0xfffffe000001);
    assert((k + 1) * (k + 1) == 0x1000002000001);
    assert(0xfffffe000001 * t <= kk * p <= 0x1000002000001 * t);
    assert(p <= 2 * t);
    assert(to_single(p) <= u64::MAX);
    assert(-p <= (to_single(p) - p) * 0x100_0000 <= p);
}

/// An analyser is an Ultra where its replies name one, and which Ultra it is takes a word
/// that names it: of several the lowest number counts.
pub proof fn law_a_model_is_named_in_the_replies(upper: Seq<char>)
    ensures
        ({
            let ultra = text::has(upper, "TINYSA4"@) || text::has(upper, "TINYSA ULTRA"@);
            let five = text::has(upper, "ZS405"@) || text::has(upper, "V0.4.5.1"@);
            let six = text::has(upper, "ZS406"@) || text::has(upper, "V0.4.6"@);
            let seven = text::has(upper, "ZS407"@) || text::has(upper, "V0.5.4"@) || text::has(
                upper,
                "MAX2871"@,
            );
            let m = model_of(upper);
            &&& m.ultra() <==> ultra
            &&& m == Model::Zs405 <==> ultra && five
            &&& m == Model::Zs406 <==> ultra && six && !five
            &&& m == Model::Zs407 <==> ultra && seven && !five && !six
            &&& m == Model::UltraUnknown <==> ultra && !five && !six && !seven
        }),
{
}

/// The paths of an analyser meet inside its range, an Ultra reaches at least as far as
/// six gigahertz, and one that does not say which it is reaches no further than the
/// least of them.
pub proof fn law_every_ultra_reaches_six_gigahertz(m: Model)
    ensures
        0 < m.boundary_hz() < m.max_hz(),
        m.ultra() <==> m.max_hz() >= 6_000_000_000,
        m.ultra() ==> Model::UltraUnknown.max_hz() <= m.max_hz(),
        m.ultra() ==> m.boundary_hz() <= Model::UltraUnknown.boundary_hz(),
{
}

/// The case of the replies does not matter to the model that is read from them.
pub proof fn law_case_does_not_matter_to_the_model(version: Seq<char>, info: Seq<char>)
    ensures
        combined_upper(text::upper(version), text::upper(info)) == combined_upper(version, info),
        combined_upper(version, info).len() == version.len() + 1 + info.len(),
{
    let a = combined_upper(text::upper(version), text::upper(info));
    let b = combined_upper(version, info);
    assert(a =~= b);
}

/// A level is read back from its line, whatever white space stands round it and before
/// its unit: a number and the unit, in either spelling.
pub proof fn law_a_level_is_read_back(before: Seq<char>, n: nat, between: Seq<char>, after: Seq<char>)
    requires
        n <= i32::MAX,
        forall|i: int| 0 <= i < before.len() ==> text::is_space(before[i]),
        forall|i: int| 0 <= i < between.len() ==> text::is_space(between[i]),
        forall|i: int| 0 <= i < after.len() ==> text::is_space(after[i]),
    ensures
        zero_in(before + (text::decimal(n) + between + "dBm"@) + after) == Some(n as int),
        zero_in(before + (text::decimal(n) + between + "DBM"@) + after) == Some(n as int),
        zero_in(before + (seq!['-'] + text::decimal(n) + between + "dBm"@) + after) == Some(
            -(n as int),
        ),
        zero_in(before + (text::decimal(n) + between) + after) is None,
{
    reveal_strlit("dBm");
    reveal_strlit("DBM");
    text::law_a_number_is_read_back(n);
    let d = text::decimal(n);
    let signed = seq!['-'] + d;
    assert(text::is_digit(d[0]) && text::is_digit(d.last()));
    lemma_level_line(before, d, between, "dBm"@, after);
    lemma_level_line(before, d, between, "DBM"@, after);
    lemma_level_line(before, signed, between, "dBm"@, after);
    assert(seq!['-'] + d + between + "dBm"@ == signed + between + "dBm"@);
    // A number alone ends in a digit, not in a unit.
    let bare = before + (d + between) + after;
    assert(bare == before + d + (between + after));
    text::law_trimming_leaves_what_stands_between(before, d, between + after);
    let m = d.len() - 3;
    if m >= 0 {
        assert(d.skip(m)[2] == d.last());
        assert("dBm"@[2] == 'm' && "DBM"@[2] == 'M');
    }
}

/// What a line of a number and its unit comes apart into.
proof fn lemma_level_line(
    before: Seq<char>,
    number: Seq<char>,
    between: Seq<char>,
    unit: Seq<char>,
    after: Seq<char>,
)
    requires
        unit == "dBm"@ || unit == "DBM"@,
        number.len() > 0,
        !text::is_space(number[0]),
        !text::is_space(number.last()),
        text::spelled_int(number) matches Some(v) && i32::MIN <= v <= i32::MAX,
        forall|i: int| 0 <= i < before.len() ==> text::is_space(before[i]),
        forall|i: int| 0 <= i < between.len() ==> text::is_space(between[i]),
        forall|i: int| 0 <= i < after.len() ==> text::is_space(after[i]),
    ensures
        zero_in(before + (number + between + unit) + after) == text::spelled_int(number),
{
    reveal_strlit("dBm");
    reveal_strlit("DBM");
    let core = number + between + unit;
    assert(core.last() == unit[2]);
    text::law_trimming_leaves_what_stands_between(before, core, after);
    let n = core.len() - 3;
    assert(core.skip(n) == unit);
    assert(core.take(n) == number + between);
    assert(Seq::<char>::empty() + number + between == number + between);
    text::law_trimming_leaves_what_stands_between(Seq::<char>::empty(), number, between);
}

/// The first line that gives a level counts, whatever the others give.
pub proof fn law_the_first_level_counts(s: Seq<char>, n: int)
    requires
        0 <= n < text::lines_of(s).len(),
        zero_in(text::lines_of(s)[n]) is Some,
        forall|i: int| 0 <= i < n ==> zero_in(#[trigger] text::lines_of(s)[i]) is None,
    ensures
        zero_of(s) == zero_in(text::lines_of(s)[n]),
{
    lemma_first_where(text::lines_of(s), |l: Seq<char>| zero_in(l) is Some, n);
}

/// The firmware is the first line that is not blank, trimmed, and only where it names a
/// tinySA; the lines after it cannot make up for it.
pub proof fn law_the_first_line_names_the_firmware(version: Seq<char>, n: int)
    requires
        0 <= n < text::lines_of(version).len(),
        text::trimmed(text::lines_of(version)[n]).len() > 0,
        forall|i: int|
            0 <= i < n ==> text::trimmed(#[trigger] text::lines_of(version)[i]).len() == 0,
    ensures
        ({
            let line = text::trimmed(text::lines_of(version)[n]);
            &&& first_line_of(version) == Some(line)
            &&& firmware_of(version) == if text::has(text::lower(line), "tinysa"@) {
                Some(line)
            } else {
                None
            }
        }),
{
    let test = |l: Seq<char>| is_solid_line(l);
    assert(forall|i: int| 0 <= i < n ==> !test(#[trigger] text::lines_of(version)[i]));
    lemma_first_where(text::lines_of(version), test, n);
}

/// Replies identify an analyser exactly where all of them are text, the first names a
/// tinySA and the last gives a level; otherwise the first that does not tells why.
pub proof fn law_replies_identify_an_analyser(
    version: Seq<u8>,
    info: Seq<u8>,
    help: Seq<u8>,
    zero: Seq<u8>,
)
    ensures
        ({
            let fault = identity_fault(version, info, help, zero);
            let text = vstd::utf8::valid_utf8(version) && vstd::utf8::valid_utf8(info)
                && vstd::utf8::valid_utf8(help);
            let named = text && firmware_of(vstd::utf8::decode_utf8(version)) is Some;
            &&& fault is None <==> named && vstd::utf8::valid_utf8(zero) && zero_of(
                vstd::utf8::decode_utf8(zero),
            ) is Some
            &&& fault == Some(IdentityError::NotTinySa) <==> text && !named
            &&& fault == Some(IdentityError::ZeroNotText) <==> named && !vstd::utf8::valid_utf8(zero)
            &&& fault == Some(IdentityError::VersionNotText) <==> !vstd::utf8::valid_utf8(version)
            &&& !vstd::utf8::valid_utf8(help) ==> fault is Some && fault != Some(
                IdentityError::NoZero,
            )
        }),
{
}

/// The hardware is told by the first line that starts with its name, once the white space
/// round it is gone, and by none where no line does.
pub proof fn law_the_hardware_is_told_by_its_line(version: Seq<char>, n: int)
    requires
        0 <= n <= text::lines_of(version).len(),
        n < text::lines_of(version).len() ==> ({
            let line = text::trimmed(text::lines_of(version)[n]);
            line.len() >= "HW Version:"@.len() && line.take("HW Version:"@.len() as int)
                == "HW Version:"@
        }),
        forall|i: int|
            0 <= i < n ==> !is_hardware_line(#[trigger] text::lines_of(version)[i]),
    ensures
        n < text::lines_of(version).len() ==> hardware_of(version) == Some(
            text::trimmed(text::lines_of(version)[n]),
        ),
        n == text::lines_of(version).len() ==> hardware_of(version) is None,
{
    let ls = text::lines_of(version);
    let test = |l: Seq<char>| is_hardware_line(l);
    if n < ls.len() {
        let line = text::trimmed(ls[n]);
        assert(line.subrange(0, "HW Version:"@.len() as int) == line.take(
            "HW Version:"@.len() as int,
        ));
        assert(test(ls[n]));
    }
    assert(forall|i: int| 0 <= i < n ==> !test(#[trigger] ls[i]));
    lemma_first_where(ls, test, n);
}

/// An identity is what the replies say: two analysers with the same replies are told as
/// the same, and each reply can be read off it.
pub proof fn law_an_identity_is_read_off_the_replies(
    id: Identity,
    version: Seq<char>,
    info: Seq<char>,
    help: Seq<char>,
    zero: Seq<char>,
)
    requires
        identifies(id, version, info, help, zero),
    ensures
        text::has(text::lower(id.firmware@), "tinysa"@),
        id.info@ == info && id.help@ == help,
        zero_of(zero) == Some(id.zero_dbm as int),
        id.hardware is Some <==> hardware_of(version) is Some,
        id.hardware matches Some(line) ==> hardware_of(version) == Some(line@),
        id.model == model_of(combined_upper(version, info)),
        first_line_of(info) matches Some(line) ==> id.board@ == line,
        first_line_of(info) is None ==> id.board@ == id.model.title(),
{
}

/// How far each model reaches, and where its two paths meet.
pub proof fn law_models_have_their_ranges(m: Model)
    ensures
        m == Model::Basic ==> m.max_hz() == 960_000_000 && m.boundary_hz() == 350_000_000,
        m == Model::Zs407 ==> m.max_hz() == 7_300_000_000,
        m == Model::Zs405 ==> m.boundary_hz() == 800_000_000,
        m != Model::Basic && m != Model::Zs407 ==> m.max_hz() == 6_000_000_000,
        m != Model::Basic && m != Model::Zs405 ==> m.boundary_hz() == 900_000_000,
{
}

} // verus!
