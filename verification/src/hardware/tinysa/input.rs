//! The connectors of the basic model and the selector that names one.

use crate::hardware::{DeviceKind, DeviceListing};
use crate::text;
use vstd::prelude::*;

verus! {

/// The lowest frequency any model measures.
pub const MIN_FREQUENCY_HZ: u64 = 100_000;

/// The upper end of the LOW connector of the basic model.
pub const BASIC_LOW_MAX_HZ: u64 = 350_000_000;

/// The range of its HIGH connector.
pub const BASIC_HIGH_MIN_HZ: u64 = 240_000_000;

pub const BASIC_HIGH_MAX_HZ: u64 = 959_000_000;

/// The connector of the basic model that a scan uses.
#[derive(Clone, Copy, Debug, PartialEq, Eq, Structural)]
pub enum BasicInput {
    Low,
    High,
}

impl Default for BasicInput {
    fn default() -> (input: Self)
        ensures
            input == BasicInput::Low,
    {
        BasicInput::Low
    }
}

/// The connector a word names, in any case.
pub open spec fn named_input(word: Seq<char>) -> Option<BasicInput> {
    if text::lower(word) == "low"@ {
        Some(BasicInput::Low)
    } else if text::lower(word) == "high"@ {
        Some(BasicInput::High)
    } else {
        None
    }
}

impl BasicInput {
    pub open spec fn title(self) -> Seq<char> {
        match self {
            BasicInput::Low => "LOW"@,
            BasicInput::High => "HIGH"@,
        }
    }

    pub open spec fn limits(self) -> (u64, u64) {
        match self {
            BasicInput::Low => (MIN_FREQUENCY_HZ, BASIC_LOW_MAX_HZ),
            BasicInput::High => (BASIC_HIGH_MIN_HZ, BASIC_HIGH_MAX_HZ),
        }
    }

    pub open spec fn command(self) -> Seq<char> {
        match self {
            BasicInput::Low => "mode low input"@,
            BasicInput::High => "mode high input"@,
        }
    }

    /// Reads the name of a connector.
    pub fn parse(value: &[char]) -> (r: Result<Self, SelectorError>)
        ensures
            r == match named_input(value@) {
                Some(input) => Ok::<BasicInput, SelectorError>(input),
                None => Err::<BasicInput, SelectorError>(SelectorError::BadInput),
            },
    {
        let word = text::to_lower(value);
        let low = text::to_chars("low");
        let high = text::to_chars("high");
        proof {
            reveal_strlit("low");
            reveal_strlit("high");
        }
        if text::same(word.as_slice(), low.as_slice()) {
            Ok(BasicInput::Low)
        } else if text::same(word.as_slice(), high.as_slice()) {
            Ok(BasicInput::High)
        } else {
            Err(SelectorError::BadInput)
        }
    }

    /// The connector as it is shown.
    pub fn label(self) -> (t: &'static str)
        ensures
            t@ == self.title(),
    {
        match self {
            BasicInput::Low => "LOW",
            BasicInput::High => "HIGH",
        }
    }

    /// The command that selects the connector.
    pub fn mode_command(self) -> (t: &'static str)
        ensures
            t@ == self.command(),
    {
        match self {
            BasicInput::Low => "mode low input",
            BasicInput::High => "mode high input",
        }
    }

    /// The lowest and the highest frequency of the connector.
    pub fn range(self) -> (r: (u64, u64))
        ensures
            r == self.limits(),
    {
        match self {
            BasicInput::Low => (MIN_FREQUENCY_HZ, BASIC_LOW_MAX_HZ),
            BasicInput::High => (BASIC_HIGH_MIN_HZ, BASIC_HIGH_MAX_HZ),
        }
    }
}

/// Why a device selector was refused.
#[derive(Clone, Copy, Debug, PartialEq, Eq, Structural)]
pub enum SelectorError {
    BadInput,
    BadPath,
}

impl SelectorError {
    pub open spec fn text(self) -> Seq<char> {
        match self {
            SelectorError::BadInput => "tinySA input must be 'low' or 'high'"@,
            SelectorError::BadPath => {
                "tinySA selector only supports '?input=low' or '?input=high'"@
            },
        }
    }

    /// The sentence shown for the error.
    pub fn message(self) -> (t: &'static str)
        ensures
            t@ == self.text(),
    {
        match self {
            SelectorError::BadInput => "tinySA input must be 'low' or 'high'",
            SelectorError::BadPath => "tinySA selector only supports '?input=low' or '?input=high'",
        }
    }
}

/// The last position at or before `i` where `needle` stands in `hay`, or -1.
pub open spec fn last_from(hay: Seq<char>, needle: Seq<char>, i: int) -> int
    decreases i + 1,
{
    if i < 0 {
        -1
    } else if text::occurs_at(hay, needle, i) {
        i
    } else {
        last_from(hay, needle, i - 1)
    }
}

/// Where the last `?input=` of a selector stands, or -1.
pub open spec fn input_mark(selector: Seq<char>) -> int {
    last_from(selector, "?input="@, selector.len() as int)
}

/// The path part of a selector.
pub open spec fn path_part(selector: Seq<char>) -> Seq<char> {
    let at = input_mark(selector);
    if at < 0 {
        selector
    } else {
        selector.take(at)
    }
}

/// The path and the connector a selector asks for.
pub open spec fn selection(selector: Seq<char>) -> Result<
    (Option<Seq<char>>, Option<BasicInput>),
    SelectorError,
> {
    let at = input_mark(selector);
    let path = path_part(selector);
    let wanted = named_input(selector.skip(at + "?input="@.len()));
    if at >= 0 && wanted is None {
        Err(SelectorError::BadInput)
    } else if path.contains('?') {
        Err(SelectorError::BadPath)
    } else {
        Ok(
            (
                if path.len() == 0 {
                    None
                } else {
                    Some(path)
                },
                if at >= 0 {
                    wanted
                } else {
                    None
                },
            ),
        )
    }
}

/// A string's characters, where there is a string.
pub open spec fn viewed(s: Option<String>) -> Option<Seq<char>> {
    match s {
        Some(t) => Some(t@),
        None => None,
    }
}

/// A search never passes the position it starts from, and what it finds is there.
proof fn lemma_last_from(hay: Seq<char>, needle: Seq<char>, i: int)
    requires
        -1 <= i,
    ensures
        -1 <= last_from(hay, needle, i) <= i,
        last_from(hay, needle, i) >= 0 ==> text::occurs_at(
            hay,
            needle,
            last_from(hay, needle, i),
        ),
    decreases i + 1,
{
    if i >= 0 && !text::occurs_at(hay, needle, i) {
        lemma_last_from(hay, needle, i - 1);
    }
}

/// Splits a device selector into the serial path and the connector it asks for:
/// the last `?input=` names the connector, and no other question mark is allowed.
pub fn parse_selector(selector: &str) -> (r: Result<
    (Option<String>, Option<BasicInput>),
    SelectorError,
>)
    ensures
        match r {
            Ok(found) => selection(selector@) == Ok::<
                (Option<Seq<char>>, Option<BasicInput>),
                SelectorError,
            >((viewed(found.0), found.1)),
            Err(e) => selection(selector@) == Err::<
                (Option<Seq<char>>, Option<BasicInput>),
                SelectorError,
            >(e),
        },
{
    let chars = text::to_chars(selector);
    let mark = text::to_chars("?input=");
    let ghost len = chars@.len() as int;
    let mut at: usize = chars.len();
    let mut found: bool = text::stands_at(chars.as_slice(), mark.as_slice(), at);
    while !found && at > 0
        invariant
            at <= chars@.len(),
            len == chars@.len(),
            chars@ == selector@,
            mark@ == "?input="@,
            found == text::occurs_at(chars@, mark@, at as int),
            last_from(chars@, mark@, len) == last_from(chars@, mark@, at as int),
        decreases at,
    {
        at -= 1;
        found = text::stands_at(chars.as_slice(), mark.as_slice(), at);
    }
    proof {
        reveal_strlit("?input=");
        lemma_last_from(chars@, mark@, len);
    }
    assert(last_from(chars@, mark@, -1) == -1);
    assert(found ==> input_mark(selector@) == at);
    assert(!found ==> input_mark(selector@) == -1);
    let mut input: Option<BasicInput> = None;
    let mut path = text::slice_of(chars.as_slice(), 0, chars.len());
    assert(path@ == chars@);
    if found {
        let word = text::slice_of(chars.as_slice(), at + mark.len(), chars.len());
        assert(word@ == selector@.skip(at + mark@.len()));
        match BasicInput::parse(word.as_slice()) {
            Ok(i) => input = Some(i),
            Err(e) => return Err(e),
        }
        path = text::slice_of(chars.as_slice(), 0, at);
        assert(path@ == selector@.take(at as int));
    }
    let mut i: usize = 0;
    while i < path.len()
        invariant
            i <= path@.len(),
            path@ == path_part(selector@),
            forall|k: int| 0 <= k < i ==> path@[k] != '?',
            found ==> named_input(selector@.skip(input_mark(selector@) + "?input="@.len())) is Some,
            !found ==> input_mark(selector@) == -1,
        decreases path@.len() - i,
    {
        if path[i] == '?' {
            assert(path@[i as int] == '?');
            assert(path@.contains('?'));
            return Err(SelectorError::BadPath);
        }
        i += 1;
    }
    assert(!path@.contains('?'));
    if path.len() == 0 {
        Ok((None, input))
    } else {
        Ok((Some(text::from_chars(path.as_slice())), input))
    }
}

/// What a listing's label gains from an explicit connector.
pub open spec fn input_suffix(input: Option<BasicInput>) -> Seq<char> {
    match input {
        Some(i) => " \u{b7} "@ + i.title() + " input"@,
        None => Seq::empty(),
    }
}

/// The suffix of a label for an explicit connector.
fn suffix_text(input: Option<BasicInput>) -> (out: Vec<char>)
    ensures
        out@ == input_suffix(input),
{
    let mut out: Vec<char> = Vec::new();
    if let Some(i) = input {
        text::push_str(&mut out, " \u{b7} ");
        text::push_str(&mut out, i.label());
        text::push_str(&mut out, " input");
    }
    assert(out@ == input_suffix(input));
    out
}

/// Whether `shown` is `found` with an explicit connector added.
pub open spec fn relabelled(
    shown: DeviceListing,
    found: DeviceListing,
    input: Option<BasicInput>,
) -> bool {
    &&& shown.kind == found.kind
    &&& shown.index == found.index
    &&& shown.label@ == found.label@ + input_suffix(input)
    &&& shown.serial == found.serial
    &&& shown.args == found.args
    &&& shown.path == found.path
    &&& shown.tiny_sa_input == input
}

/// Whether a listing is the one for an explicit path.
pub open spec fn names_path(
    shown: DeviceListing,
    path: Seq<char>,
    input: Option<BasicInput>,
) -> bool {
    &&& shown.kind == DeviceKind::TinySa
    &&& shown.index == 0
    &&& shown.label@ == "tinySA \u{b7} "@ + path + input_suffix(input)
    &&& shown.serial is None
    &&& shown.args is None
    &&& viewed(shown.path) == Some(path)
    &&& shown.tiny_sa_input == input
}

/// The devices a selector leaves to pick from. An explicit path stands for
/// itself, a refused selector leaves nothing, and an explicit connector is added
/// to whatever was discovered.
pub fn list(selector: Option<&str>, discovered: Vec<DeviceListing>) -> (out: Vec<DeviceListing>)
    ensures
        ({
            let asked = match selector {
                Some(s) => selection(s@),
                None => Ok((None, None)),
            };
            match asked {
                Err(_) => out@.len() == 0,
                Ok((Some(path), input)) => out@.len() == 1 && names_path(out@[0], path, input),
                Ok((None, input)) => {
                    &&& out@.len() == discovered@.len()
                    &&& forall|i: int|
                        0 <= i < out@.len() ==> relabelled(#[trigger] out@[i], discovered@[i], input)
                },
            }
        }),
{
    let (path, input): (Option<String>, Option<BasicInput>) = match selector {
        Some(s) => match parse_selector(s) {
            Ok(found) => found,
            Err(_) => return Vec::new(),
        },
        None => (None, None),
    };
    let suffix = suffix_text(input);
    if let Some(p) = path {
        let mut label: Vec<char> = text::to_chars("tinySA \u{b7} ");
        text::push_str(&mut label, p.as_str());
        text::push_all(&mut label, suffix.as_slice());
        assert(label@ == "tinySA \u{b7} "@ + p@ + input_suffix(input));
        let mut out: Vec<DeviceListing> = Vec::new();
        out.push(
            DeviceListing {
                kind: DeviceKind::TinySa,
                index: 0,
                label: text::from_chars(label.as_slice()),
                serial: None,
                args: None,
                path: Some(p),
                tiny_sa_input: input,
            },
        );
        return out;
    }
    let ghost before = discovered@;
    let mut out: Vec<DeviceListing> = Vec::new();
    let mut rest = discovered;
    while rest.len() > 0
        invariant
            suffix@ == input_suffix(input),
            out@.len() + rest@.len() == before.len(),
            rest@ == before.skip(out@.len() as int),
            forall|i: int| 0 <= i < out@.len() ==> relabelled(#[trigger] out@[i], before[i], input),
        decreases rest@.len(),
    {
        let device = rest.remove(0);
        assert(device == before[out@.len() as int]);
        let mut label: Vec<char> = text::to_chars(device.label.as_str());
        text::push_all(&mut label, suffix.as_slice());
        let shown = DeviceListing {
            kind: device.kind,
            index: device.index,
            label: text::from_chars(label.as_slice()),
            serial: device.serial,
            args: device.args,
            path: device.path,
            tiny_sa_input: input,
        };
        out.push(shown);
        assert(rest@ == before.skip(out@.len() as int));
    }
    out
}

/// A selector of a path and a connector gives them back, whatever the case of the word;
/// a path alone asks for no connector.
pub proof fn law_a_selector_names_its_parts(path: Seq<char>, word: Seq<char>)
    requires
        !path.contains('?'),
        !word.contains('?'),
        word.len() > 0,
    ensures
        ({
            let with_input = selection(path + "?input="@ + word);
            let shown: Option<Seq<char>> = if path.len() == 0 {
                None
            } else {
                Some(path)
            };
            &&& text::lower(word) == "low"@ ==> with_input == Ok::<
                (Option<Seq<char>>, Option<BasicInput>),
                SelectorError,
            >((shown, Some(BasicInput::Low)))
            &&& text::lower(word) == "high"@ ==> with_input == Ok::<
                (Option<Seq<char>>, Option<BasicInput>),
                SelectorError,
            >((shown, Some(BasicInput::High)))
            &&& text::lower(word) != "low"@ && text::lower(word) != "high"@ ==> with_input is Err
            &&& selection(path) == Ok::<(Option<Seq<char>>, Option<BasicInput>), SelectorError>(
                (shown, None),
            )
        }),
{
    reveal_strlit("?input=");
    reveal_strlit("low");
    reveal_strlit("high");
    let mark = "?input="@;
    let s = path + mark + word;
    let at = path.len() as int;
    assert(s.subrange(at, at + mark.len()) == mark);
    assert(text::occurs_at(s, mark, at));
    assert forall|i: int| 0 <= i <= s.len() && i != at implies !#[trigger] text::occurs_at(
        s,
        mark,
        i,
    ) by {
        if text::occurs_at(s, mark, i) {
            assert(s.subrange(i, i + mark.len())[0] == mark[0]);
            assert(s[i] == '?');
            if i < at {
                assert(path[i] == '?');
            } else if i < at + mark.len() {
                assert(s[i] == mark[i - at]);
            } else {
                assert(word[i - at - mark.len()] == '?');
            }
        }
    }
    lemma_only_mark(s, mark, at, s.len() as int);
    assert(s.take(at) == path);
    assert(s.skip(at + mark.len()) == word);
    assert("low"@.len() == 3 && "high"@.len() == 4);
    assert forall|i: int| 0 <= i <= path.len() implies !#[trigger] text::occurs_at(
        path,
        mark,
        i,
    ) by {
        if text::occurs_at(path, mark, i) {
            assert(path.subrange(i, i + mark.len())[0] == mark[0]);
            assert(path[i] == '?');
        }
    }
    lemma_no_mark(path, mark, path.len() as int);
}

proof fn lemma_only_mark(hay: Seq<char>, needle: Seq<char>, at: int, i: int)
    requires
        0 <= at <= i <= hay.len(),
        text::occurs_at(hay, needle, at),
        forall|k: int| 0 <= k <= hay.len() && k != at ==> !#[trigger] text::occurs_at(hay, needle, k),
    ensures
        last_from(hay, needle, i) == at,
    decreases i,
{
    if i > at {
        assert(!text::occurs_at(hay, needle, i));
        lemma_only_mark(hay, needle, at, i - 1);
    }
}

proof fn lemma_no_mark(hay: Seq<char>, needle: Seq<char>, i: int)
    requires
        -1 <= i <= hay.len(),
        forall|k: int| 0 <= k <= hay.len() ==> !#[trigger] text::occurs_at(hay, needle, k),
    ensures
        last_from(hay, needle, i) == -1,
    decreases i + 1,
{
    if i >= 0 {
        lemma_no_mark(hay, needle, i - 1);
    }
}

/// The connectors of the basic model and what they measure.
pub proof fn law_connectors_measure_their_ranges(input: BasicInput)
    ensures
        input == BasicInput::Low ==> input.limits() == (100_000u64, 350_000_000u64),
        input == BasicInput::High ==> input.limits() == (240_000_000u64, 959_000_000u64),
{
}

/// An explicit connector is told behind the label that was found, and nothing else of a
/// listing changes; without one nothing changes.
pub proof fn law_a_connector_is_told_behind_the_label(
    shown: DeviceListing,
    found: DeviceListing,
    input: Option<BasicInput>,
)
    requires
        relabelled(shown, found, input),
    ensures
        shown.label@.len() >= found.label@.len(),
        shown.label@.take(found.label@.len() as int) == found.label@,
        input is None ==> shown.label@ == found.label@,
        input is Some ==> shown.label@.len() > found.label@.len(),
        shown.tiny_sa_input == input,
        shown.path == found.path && shown.index == found.index && shown.kind == found.kind
            && shown.serial == found.serial,
{
    reveal_strlit(" \u{b7} ");
    assert(found.label@ + Seq::<char>::empty() == found.label@);
}

/// The label of one connector is never that of the other.
pub proof fn law_connectors_are_told_apart(a: BasicInput, b: BasicInput)
    requires
        a != b,
    ensures
        a.title() != b.title(),
        input_suffix(Some(a)) != input_suffix(Some(b)),
{
    reveal_strlit("LOW");
    reveal_strlit("HIGH");
    assert("LOW"@.len() == 3 && "HIGH"@.len() == 4);
    assert(input_suffix(Some(a)).len() != input_suffix(Some(b)).len());
}

} // verus!
