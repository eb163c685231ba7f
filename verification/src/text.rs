//! Text as sequences of characters: trimming, line splitting, searching and
//! decimal numbers, each with the meaning the protocol grammars rely on.

use vstd::prelude::*;

verus! {

/// `String::push` appends one character to the string.
pub assume_specification[ String::push ](s: &mut String, c: char)
    ensures
        final(s)@ == old(s)@.push(c),
;

/// Whether a character has the Unicode `White_Space` property.
pub open spec fn is_space(c: char) -> bool {
    let u = c as u32;
    ||| 0x09 <= u <= 0x0d
    ||| u == 0x20
    ||| u == 0x85
    ||| u == 0xa0
    ||| u == 0x1680
    ||| 0x2000 <= u <= 0x200a
    ||| u == 0x2028
    ||| u == 0x2029
    ||| u == 0x202f
    ||| u == 0x205f
    ||| u == 0x3000
}

/// Whether a character is an ASCII space, tab, line feed, form feed or carriage return.
pub open spec fn is_ascii_space(c: char) -> bool {
    c == ' ' || c == '\t' || c == '\n' || c == '\u{0c}' || c == '\r'
}

/// The text with its leading white space removed.
pub open spec fn trim_start(s: Seq<char>) -> Seq<char>
    decreases s.len(),
{
    if s.len() > 0 && is_space(s[0]) {
        trim_start(s.drop_first())
    } else {
        s
    }
}

/// The text with its trailing white space removed.
pub open spec fn trim_end(s: Seq<char>) -> Seq<char>
    decreases s.len(),
{
    if s.len() > 0 && is_space(s.last()) {
        trim_end(s.drop_last())
    } else {
        s
    }
}

/// The text with white space removed at both ends.
pub open spec fn trimmed(s: Seq<char>) -> Seq<char> {
    trim_end(trim_start(s))
}

/// One ASCII letter in lower case; any other character as it is.
pub open spec fn lower_char(c: char) -> char {
    if 'A' <= c <= 'Z' {
        ((c as u32 + 32) as u32) as char
    } else {
        c
    }
}

/// The text with its ASCII letters in lower case.
pub open spec fn lower(s: Seq<char>) -> Seq<char> {
    s.map_values(|c: char| lower_char(c))
}

/// One ASCII letter in upper case; any other character as it is.
pub open spec fn upper_char(c: char) -> char {
    if 'a' <= c <= 'z' {
        ((c as u32 - 32) as u32) as char
    } else {
        c
    }
}

/// The text with its ASCII letters in upper case.
pub open spec fn upper(s: Seq<char>) -> Seq<char> {
    s.map_values(|c: char| upper_char(c))
}

/// Whether `needle` stands in `hay` at position `i`.
pub open spec fn occurs_at(hay: Seq<char>, needle: Seq<char>, i: int) -> bool {
    0 <= i && i + needle.len() <= hay.len() && hay.subrange(i, i + needle.len()) == needle
}

/// Whether `needle` stands anywhere in `hay`.
pub open spec fn has(hay: Seq<char>, needle: Seq<char>) -> bool {
    exists|i: int| #[trigger] occurs_at(hay, needle, i)
}

/// The position of the first `c` at or after `from`, or the length of the text.
pub open spec fn find_from(s: Seq<char>, c: char, from: int) -> int
    decreases s.len() - from,
{
    if from >= s.len() {
        s.len() as int
    } else if s[from] == c {
        from
    } else {
        find_from(s, c, from + 1)
    }
}

/// A line without the carriage return that ends it.
pub open spec fn without_return(s: Seq<char>) -> Seq<char> {
    if s.len() > 0 && s.last() == '\r' {
        s.drop_last()
    } else {
        s
    }
}

/// The lines of a text. A line feed ends a line, a carriage return right before
/// it belongs to the ending, and a last line needs no ending.
pub open spec fn lines_of(s: Seq<char>) -> Seq<Seq<char>>
    decreases s.len(),
{
    if s.len() == 0 {
        Seq::empty()
    } else {
        proof {
            lemma_find_from(s, '\n', 0);
        }
        let n = find_from(s, '\n', 0);
        if n == s.len() {
            seq![s]
        } else {
            seq![without_return(s.take(n))] + lines_of(s.skip(n + 1))
        }
    }
}

/// A decimal digit as a character.
pub open spec fn digit(d: int) -> char {
    ((48 + d) as u32) as char
}

/// A number written in decimal, without leading zeros.
pub open spec fn decimal(n: nat) -> Seq<char>
    decreases n,
{
    if n < 10 {
        seq![digit(n as int)]
    } else {
        decimal(n / 10).push(digit((n % 10) as int))
    }
}

/// A hexadecimal digit as a lower-case character.
pub open spec fn hex_digit(d: int) -> char {
    if d < 10 {
        digit(d)
    } else {
        ((87 + d) as u32) as char
    }
}

/// A byte as two hexadecimal digits.
pub open spec fn hex_byte(b: u8) -> Seq<char> {
    seq![hex_digit(b as int / 16), hex_digit(b as int % 16)]
}

/// Whether a character is a decimal digit.
pub open spec fn is_digit(c: char) -> bool {
    '0' <= c <= '9'
}

/// The number a run of decimal digits stands for.
pub open spec fn digits_value(s: Seq<char>) -> int
    decreases s.len(),
{
    if s.len() == 0 {
        0
    } else {
        digits_value(s.drop_last()) * 10 + (s.last() as int - 48)
    }
}

/// Whether a text is one or more decimal digits and nothing else.
pub open spec fn all_digits(s: Seq<char>) -> bool {
    s.len() > 0 && forall|i: int| 0 <= i < s.len() ==> is_digit(#[trigger] s[i])
}

/// The integer a text spells, with an optional sign in front of its digits.
pub open spec fn spelled_int(s: Seq<char>) -> Option<int> {
    if s.len() > 0 && s[0] == '-' {
        if all_digits(s.drop_first()) {
            Some(-digits_value(s.drop_first()))
        } else {
            None
        }
    } else if s.len() > 0 && s[0] == '+' {
        if all_digits(s.drop_first()) {
            Some(digits_value(s.drop_first()))
        } else {
            None
        }
    } else if all_digits(s) {
        Some(digits_value(s))
    } else {
        None
    }
}

/// The characters of a string.
pub fn to_chars(s: &str) -> (out: Vec<char>)
    ensures
        out@ == s@,
{
    let mut out: Vec<char> = Vec::new();
    for c in iter: s.chars()
        invariant
            iter.seq() == s@,
            out@ == s@.take(iter.index() as int),
    {
        assert(s@.take(iter.index() + 1) == s@.take(iter.index() as int).push(
            s@[iter.index() as int],
        ));
        out.push(c);
    }
    assert(s@.take(s@.len() as int) == s@);
    out
}

/// The string made of the given characters.
pub fn from_chars(chars: &[char]) -> (out: String)
    ensures
        out@ == chars@,
{
    let mut out = String::new();
    let mut i: usize = 0;
    while i < chars.len()
        invariant
            i <= chars@.len(),
            out@ == chars@.take(i as int),
        decreases chars@.len() - i,
    {
        assert(chars@.take(i + 1) == chars@.take(i as int).push(chars@[i as int]));
        out.push(chars[i]);
        i += 1;
    }
    assert(chars@.take(chars@.len() as int) == chars@);
    out
}

/// A search never leaves the text, stops at the first hit, and passes only other characters.
pub proof fn lemma_find_from(s: Seq<char>, c: char, from: int)
    requires
        0 <= from <= s.len(),
    ensures
        from <= find_from(s, c, from) <= s.len(),
        find_from(s, c, from) < s.len() ==> s[find_from(s, c, from)] == c,
        forall|i: int| from <= i < find_from(s, c, from) ==> s[i] != c,
    decreases s.len() - from,
{
    if from < s.len() && s[from] != c {
        lemma_find_from(s, c, from + 1);
    }
}

/// The position found is the only one that stops the search.
proof fn lemma_find_unique(s: Seq<char>, c: char, from: int, at: int)
    requires
        0 <= from <= at <= s.len(),
        at < s.len() ==> s[at] == c,
        forall|i: int| from <= i < at ==> s[i] != c,
    ensures
        find_from(s, c, from) == at,
    decreases at - from,
{
    if from < at {
        lemma_find_unique(s, c, from + 1, at);
    }
}

/// A copy of the characters from `from` up to `to`.
pub fn slice_of(s: &[char], from: usize, to: usize) -> (out: Vec<char>)
    requires
        from <= to <= s@.len(),
    ensures
        out@ == s@.subrange(from as int, to as int),
{
    let mut out: Vec<char> = Vec::new();
    let mut i: usize = from;
    while i < to
        invariant
            from <= i <= to <= s@.len(),
            out@ == s@.subrange(from as int, i as int),
        decreases to - i,
    {
        assert(s@.subrange(from as int, i + 1) == s@.subrange(from as int, i as int).push(
            s@[i as int],
        ));
        out.push(s[i]);
        i += 1;
    }
    out
}

/// Whether two texts are the same.
pub fn same(a: &[char], b: &[char]) -> (r: bool)
    ensures
        r == (a@ == b@),
{
    if a.len() != b.len() {
        return false;
    }
    let mut i: usize = 0;
    while i < a.len()
        invariant
            i <= a@.len(),
            a@.len() == b@.len(),
            forall|k: int| 0 <= k < i ==> a@[k] == b@[k],
        decreases a@.len() - i,
    {
        if a[i] != b[i] {
            return false;
        }
        i += 1;
    }
    assert(a@ == b@);
    true
}

/// Whether a character is white space.
pub fn space(c: char) -> (r: bool)
    ensures
        r == is_space(c),
{
    let u: u32 = c as u32;
    (0x09 <= u && u <= 0x0d) || u == 0x20 || u == 0x85 || u == 0xa0 || u == 0x1680 || (0x2000 <= u
        && u <= 0x200a) || u == 0x2028 || u == 0x2029 || u == 0x202f || u == 0x205f || u == 0x3000
}

/// Dropping leading white space leaves what stands from the first other character on.
proof fn lemma_trim_start(s: Seq<char>, n: int)
    requires
        0 <= n <= s.len(),
        forall|i: int| 0 <= i < n ==> is_space(s[i]),
        n < s.len() ==> !is_space(s[n]),
    ensures
        trim_start(s) == s.skip(n),
    decreases n,
{
    if n > 0 {
        let t = s.drop_first();
        assert forall|i: int| 0 <= i < n - 1 implies is_space(t[i]) by {
            assert(t[i] == s[i + 1]);
        }
        if n < s.len() {
            assert(t[n - 1] == s[n]);
        }
        lemma_trim_start(t, n - 1);
        assert(t.skip(n - 1) == s.skip(n));
    } else {
        assert(s.skip(0) == s);
    }
}

/// Dropping trailing white space leaves what stands up to the last other character.
proof fn lemma_trim_end(s: Seq<char>, n: int)
    requires
        0 <= n <= s.len(),
        forall|i: int| n <= i < s.len() ==> is_space(s[i]),
        n > 0 ==> !is_space(s[n - 1]),
    ensures
        trim_end(s) == s.take(n),
    decreases s.len() - n,
{
    if n < s.len() {
        lemma_trim_end(s.drop_last(), n);
        assert(s.drop_last().take(n) == s.take(n));
    } else {
        assert(s.take(n) == s);
    }
}

/// The text without white space at its ends.
pub fn trim(s: &[char]) -> (out: Vec<char>)
    ensures
        out@ == trimmed(s@),
{
    let mut start: usize = 0;
    while start < s.len() && space(s[start])
        invariant
            start <= s@.len(),
            forall|i: int| 0 <= i < start ==> is_space(s@[i]),
        decreases s@.len() - start,
    {
        start += 1;
    }
    let mut end: usize = s.len();
    while end > start && space(s[end - 1])
        invariant
            start <= end <= s@.len(),
            forall|i: int| end <= i < s@.len() ==> is_space(s@[i]),
        decreases end,
    {
        end -= 1;
    }
    proof {
        lemma_trim_start(s@, start as int);
        let t = s@.skip(start as int);
        assert forall|i: int| end - start <= i < t.len() implies is_space(t[i]) by {
            assert(t[i] == s@[i + start]);
        }
        if end > start {
            assert(t[end - start - 1] == s@[end - 1]);
        }
        lemma_trim_end(t, end - start);
        assert(t.take(end - start) == s@.subrange(start as int, end as int));
    }
    slice_of(s, start, end)
}

/// The text with its ASCII letters in lower case.
pub fn to_lower(s: &[char]) -> (out: Vec<char>)
    ensures
        out@ == lower(s@),
{
    let mut out: Vec<char> = Vec::new();
    let mut i: usize = 0;
    while i < s.len()
        invariant
            i <= s@.len(),
            out@ == lower(s@.take(i as int)),
        decreases s@.len() - i,
    {
        let c = s[i];
        let folded = if 'A' <= c && c <= 'Z' {
            ((c as u8) + 32) as char
        } else {
            c
        };
        assert(folded == lower_char(c));
        out.push(folded);
        assert(out@ == lower(s@.take(i + 1)));
        i += 1;
    }
    assert(s@.take(s@.len() as int) == s@);
    out
}

/// The text with its ASCII letters in upper case.
pub fn to_upper(s: &[char]) -> (out: Vec<char>)
    ensures
        out@ == upper(s@),
{
    let mut out: Vec<char> = Vec::new();
    let mut i: usize = 0;
    while i < s.len()
        invariant
            i <= s@.len(),
            out@ == upper(s@.take(i as int)),
        decreases s@.len() - i,
    {
        let c = s[i];
        let folded = if 'a' <= c && c <= 'z' {
            ((c as u8) - 32) as char
        } else {
            c
        };
        assert(folded == upper_char(c));
        out.push(folded);
        assert(out@ == upper(s@.take(i + 1)));
        i += 1;
    }
    assert(s@.take(s@.len() as int) == s@);
    out
}

/// Whether `needle` stands in `hay` at position `at`.
pub fn stands_at(hay: &[char], needle: &[char], at: usize) -> (r: bool)
    ensures
        r == occurs_at(hay@, needle@, at as int),
{
    if at > hay.len() || needle.len() > hay.len() - at {
        return false;
    }
    let mut i: usize = 0;
    while i < needle.len()
        invariant
            i <= needle@.len(),
            at + needle@.len() <= hay.len(),
            forall|k: int| 0 <= k < i ==> hay@[at + k] == needle@[k],
        decreases needle@.len() - i,
    {
        if hay[at + i] != needle[i] {
            assert(hay@.subrange(at as int, at + needle@.len())[i as int] != needle@[i as int]);
            return false;
        }
        i += 1;
    }
    assert(hay@.subrange(at as int, at + needle@.len()) == needle@);
    true
}

/// Whether `needle` stands anywhere in `hay`.
pub fn contains(hay: &[char], needle: &[char]) -> (r: bool)
    ensures
        r == has(hay@, needle@),
{
    let mut i: usize = 0;
    while i < hay.len()
        invariant
            i <= hay@.len(),
            forall|k: int| 0 <= k < i ==> !occurs_at(hay@, needle@, k),
        decreases hay@.len() - i,
    {
        if stands_at(hay, needle, i) {
            return true;
        }
        i += 1;
    }
    stands_at(hay, needle, i)
}

/// The lines of a text.
pub fn lines(s: &[char]) -> (out: Vec<Vec<char>>)
    ensures
        out@.map_values(|l: Vec<char>| l@) == lines_of(s@),
{
    let mut out: Vec<Vec<char>> = Vec::new();
    let mut at: usize = 0;
    assert(s@.skip(0) == s@);
    assert(out@.map_values(|l: Vec<char>| l@) + lines_of(s@.skip(0)) == lines_of(s@));
    while at < s.len()
        invariant
            at <= s@.len(),
            out@.map_values(|l: Vec<char>| l@) + lines_of(s@.skip(at as int)) == lines_of(s@),
        decreases s@.len() - at,
    {
        let mut n: usize = at;
        while n < s.len() && s[n] != '\n'
            invariant
                at <= n <= s@.len(),
                forall|i: int| at <= i < n ==> s@[i] != '\n',
            decreases s@.len() - n,
        {
            n += 1;
        }
        let ghost rest = s@.skip(at as int);
        let ghost before = out@.map_values(|l: Vec<char>| l@);
        proof {
            assert forall|i: int| 0 <= i < n - at implies rest[i] != '\n' by {
                assert(rest[i] == s@[at + i]);
            }
            if n < s@.len() {
                assert(rest[n - at] == s@[n as int]);
            }
            lemma_find_unique(rest, '\n', 0, n - at);
        }
        if n == s.len() {
            let line = slice_of(s, at, n);
            assert(line@ == rest);
            out.push(line);
            assert(out@.map_values(|l: Vec<char>| l@) == before.push(rest));
            assert(lines_of(rest) == seq![rest]);
            assert(s@.skip(n as int) == Seq::<char>::empty());
            assert(lines_of(s@.skip(n as int)) == Seq::<Seq<char>>::empty());
            assert(before + seq![rest] == before.push(rest) + Seq::<Seq<char>>::empty());
            at = n;
        } else {
            let mut end: usize = n;
            if end > at && s[end - 1] == '\r' {
                end -= 1;
            }
            let line = slice_of(s, at, end);
            proof {
                assert(rest.take(n - at) == s@.subrange(at as int, n as int));
                assert(line@ == without_return(rest.take(n - at)));
                assert(rest.skip(n - at + 1) == s@.skip(n + 1));
                assert(lines_of(rest) == seq![line@] + lines_of(s@.skip(n + 1)));
            }
            out.push(line);
            assert(out@.map_values(|l: Vec<char>| l@) == before.push(line@));
            assert(before + (seq![line@] + lines_of(s@.skip(n + 1))) == before.push(line@)
                + lines_of(s@.skip(n + 1)));
            at = n + 1;
        }
    }
    assert(s@.skip(at as int) == Seq::<char>::empty());
    assert(lines_of(s@.skip(at as int)) == Seq::<Seq<char>>::empty());
    assert(out@.map_values(|l: Vec<char>| l@) + Seq::<Seq<char>>::empty() == out@.map_values(
        |l: Vec<char>| l@,
    ));
    out
}

/// Appends a text to another.
pub fn push_all(out: &mut Vec<char>, more: &[char])
    ensures
        final(out)@ == old(out)@ + more@,
{
    let ghost before = out@;
    let mut i: usize = 0;
    while i < more.len()
        invariant
            i <= more@.len(),
            out@ == before + more@.take(i as int),
        decreases more@.len() - i,
    {
        assert(more@.take(i + 1) == more@.take(i as int).push(more@[i as int]));
        assert(before + more@.take(i + 1) == (before + more@.take(i as int)).push(
            more@[i as int],
        ));
        out.push(more[i]);
        i += 1;
    }
    assert(more@.take(more@.len() as int) == more@);
}

/// A number written in decimal.
pub fn decimal_text(n: u64) -> (out: Vec<char>)
    ensures
        out@ == decimal(n as nat),
    decreases n,
{
    let d = (48 + (n % 10) as u8) as char;
    assert(d == digit((n % 10) as int));
    if n < 10 {
        let mut out: Vec<char> = Vec::new();
        out.push(d);
        assert(out@ == seq![digit(n as int)]);
        out
    } else {
        let mut out = decimal_text(n / 10);
        out.push(d);
        out
    }
}

/// The value of a run of decimal digits, or `None` past two to the thirty-first.
fn bounded_value(s: &[char], from: usize) -> (r: Option<i64>)
    requires
        from <= s@.len(),
    ensures
        ({
            let t = s@.skip(from as int);
            match r {
                Some(v) => all_digits(t) && v == digits_value(t) && 0 <= v <= 0x8000_0000,
                None => !all_digits(t) || digits_value(t) > 0x8000_0000,
            }
        }),
{
    let ghost t = s@.skip(from as int);
    if from == s.len() {
        return None;
    }
    let mut over: bool = false;
    let mut value: i64 = 0;
    let mut i: usize = from;
    while i < s.len()
        invariant
            from <= i <= s@.len(),
            t == s@.skip(from as int),
            forall|k: int| 0 <= k < i - from ==> is_digit(#[trigger] t[k]),
            0 <= value <= 0x8000_0000,
            !over ==> value == digits_value(t.take(i - from)),
            over ==> digits_value(t.take(i - from)) > 0x8000_0000,
        decreases s@.len() - i,
    {
        let c = s[i];
        assert(c == t[i - from]);
        if !('0' <= c && c <= '9') {
            return None;
        }
        proof {
            assert(t.take(i - from + 1).drop_last() == t.take(i - from));
            assert(t.take(i - from + 1).last() == c);
        }
        if !over {
            let next: i64 = value * 10 + (c as u32 as i64 - 48);
            if next > 0x8000_0000 {
                over = true;
            } else {
                value = next;
            }
        }
        i += 1;
    }
    assert(t.take(i - from) == t);
    if over {
        None
    } else {
        Some(value)
    }
}

/// Reads a signed number: an optional sign and one or more digits, inside the
/// range of `i32`.
pub fn parse_i32(s: &[char]) -> (r: Option<i32>)
    ensures
        match spelled_int(s@) {
            Some(v) => r == if i32::MIN <= v <= i32::MAX {
                Some(v as i32)
            } else {
                None
            },
            None => r is None,
        },
{
    let negative = s.len() > 0 && s[0] == '-';
    let signed = negative || (s.len() > 0 && s[0] == '+');
    let from: usize = if signed {
        1
    } else {
        0
    };
    proof {
        assert(s@.skip(0) == s@);
        if s@.len() > 0 {
            assert(s@.skip(1) == s@.drop_first());
        }
    }
    match bounded_value(s, from) {
        None => None,
        Some(v) => {
            if negative {
                Some((0 - v) as i32)
            } else if v <= 0x7fff_ffff {
                Some(v as i32)
            } else {
                None
            }
        },
    }
}

/// One hexadecimal digit.
fn hex_char(d: u8) -> (c: char)
    requires
        d < 16,
    ensures
        c == hex_digit(d as int),
{
    if d < 10 {
        (48 + d) as char
    } else {
        (87 + d) as char
    }
}

/// A byte as two hexadecimal digits.
pub fn hex_text(b: u8) -> (out: Vec<char>)
    ensures
        out@ == hex_byte(b),
{
    let mut out: Vec<char> = Vec::new();
    out.push(hex_char(b / 16));
    out.push(hex_char(b % 16));
    assert(out@ == hex_byte(b));
    out
}

/// Appends a literal to a text.
pub fn push_str(out: &mut Vec<char>, more: &str)
    ensures
        final(out)@ == old(out)@ + more@,
{
    let chars = to_chars(more);
    push_all(out, chars.as_slice());
}

/// Appends a number in decimal to a text.
pub fn push_decimal(out: &mut Vec<char>, n: u64)
    ensures
        final(out)@ == old(out)@ + decimal(n as nat),
{
    let chars = decimal_text(n);
    push_all(out, chars.as_slice());
}

/// A number is read back from the digits it is written with: they are decimal digits, the
/// first is no zero unless it is the only one, and what they spell is the number.
pub proof fn law_a_number_is_read_back(n: nat)
    ensures
        all_digits(decimal(n)),
        digits_value(decimal(n)) == n,
        spelled_int(decimal(n)) == Some(n as int),
        spelled_int(seq!['-'] + decimal(n)) == Some(-(n as int)),
        n > 0 ==> decimal(n)[0] != '0',
{
    lemma_decimal(n);
    let d = decimal(n);
    assert(is_digit(d[0]));
    let signed = seq!['-'] + d;
    assert(signed.drop_first() == d);
}

proof fn lemma_decimal(n: nat)
    ensures
        all_digits(decimal(n)),
        digits_value(decimal(n)) == n,
        n > 0 ==> decimal(n)[0] != '0',
    decreases n,
{
    if n < 10 {
        let d = decimal(n);
        assert(d.drop_last() == Seq::<char>::empty());
        assert(digits_value(d.drop_last()) == 0);
    } else {
        lemma_decimal(n / 10);
        let head = decimal(n / 10);
        let d = decimal(n);
        assert(d.drop_last() == head);
        assert forall|i: int| 0 <= i < d.len() implies is_digit(#[trigger] d[i]) by {
            if i < head.len() {
                assert(is_digit(head[i]));
            }
        }
        assert(d[0] == head[0]);
    }
}

/// The letters of the alphabet change their case and no other character changes.
pub proof fn law_only_letters_change_case(c: char)
    ensures
        65 <= c as int <= 90 ==> lower_char(c) as int == c as int + 32 && upper_char(c) == c,
        97 <= c as int <= 122 ==> upper_char(c) as int == c as int - 32 && lower_char(c) == c,
        !(65 <= c as int <= 90 || 97 <= c as int <= 122) ==> lower_char(c) == c && upper_char(c)
            == c,
{
}

/// What stands between white space is what is left of a text that is trimmed.
pub proof fn law_trimming_leaves_what_stands_between(
    before: Seq<char>,
    core: Seq<char>,
    after: Seq<char>,
)
    requires
        forall|i: int| 0 <= i < before.len() ==> is_space(before[i]),
        forall|i: int| 0 <= i < after.len() ==> is_space(after[i]),
        core.len() > 0 ==> !is_space(core[0]) && !is_space(core.last()),
    ensures
        trimmed(before + core + after) == core,
{
    let s = before + core + after;
    if core.len() > 0 {
        assert(s[before.len() as int] == core[0]);
        lemma_trim_start(s, before.len() as int);
        let t = s.skip(before.len() as int);
        assert(t == core + after);
        lemma_trim_end(t, core.len() as int);
        assert(t.take(core.len() as int) == core);
    } else {
        lemma_trim_start(s, s.len() as int);
        assert(s.skip(s.len() as int) == core);
    }
}

/// A line ends at its line feed, with or without a carriage return before it, and what
/// follows are the lines of the rest. A last line without one is a line as it stands.
pub proof fn law_lines_end_at_their_feeds(line: Seq<char>, rest: Seq<char>)
    requires
        !line.contains('\n'),
    ensures
        line.len() > 0 ==> lines_of(line) == seq![line],
        lines_of(line + seq!['\r', '\n'] + rest) == seq![line] + lines_of(rest),
        line.len() == 0 || line.last() != '\r' ==> lines_of(line + seq!['\n'] + rest) == seq![line]
            + lines_of(rest),
        lines_of(Seq::empty()) == Seq::<Seq<char>>::empty(),
{
    assert forall|i: int| 0 <= i < line.len() implies line[i] != '\n' by {
        if line[i] == '\n' {
            assert(line.contains('\n'));
        }
    }
    lemma_find_unique(line, '\n', 0, line.len() as int);
    let a = line + seq!['\r', '\n'] + rest;
    let n = line.len() as int;
    assert(a[n] == '\r' && a[n + 1] == '\n');
    assert forall|i: int| 0 <= i < n implies a[i] != '\n' by {
        assert(a[i] == line[i]);
    }
    lemma_find_unique(a, '\n', 0, n + 1);
    assert(a.take(n + 1) == line.push('\r'));
    assert(line.push('\r').drop_last() == line);
    assert(a.skip(n + 2) == rest);
    let b = line + seq!['\n'] + rest;
    assert(b[n] == '\n');
    assert forall|i: int| 0 <= i < n implies b[i] != '\n' by {
        assert(b[i] == line[i]);
    }
    lemma_find_unique(b, '\n', 0, n);
    assert(b.take(n) == line);
    assert(b.skip(n + 1) == rest);
}

/// A byte is written as two digits of base sixteen, the higher first.
pub proof fn law_a_byte_is_two_digits(b: u8)
    ensures
        ({
            let t = hex_byte(b);
            let value = |c: char| if c as int <= 57 {
                c as int - 48
            } else {
                c as int - 87
            };
            &&& t.len() == 2
            &&& forall|i: int|
                0 <= i < 2 ==> 48 <= #[trigger] t[i] as int <= 57 || 97 <= t[i] as int <= 102
            &&& 16 * value(t[0]) + value(t[1]) == b
        }),
{
}

} // verus!
