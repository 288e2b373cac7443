//! How messages are framed on the streams of a server: header lines, an
//! empty line, then as many bytes as the `Content-Length` header says.

use crate::strings::chars_of;
use vstd::prelude::*;
use vstd::string::*;

verus! {

/// A blank, a tab, a carriage return or a line feed.
pub open spec fn is_blank(c: char) -> bool {
    c == ' ' || c == '\t' || c == '\r' || c == '\n'
}

/// `s` without the blank chars at its start.
pub open spec fn trim_start(s: Seq<char>) -> Seq<char>
    decreases s.len(),
{
    if s.len() > 0 && is_blank(s[0]) {
        trim_start(s.drop_first())
    } else {
        s
    }
}

/// `s` without the blank chars at its end.
pub open spec fn trim_end(s: Seq<char>) -> Seq<char>
    decreases s.len(),
{
    if s.len() > 0 && is_blank(s.last()) {
        trim_end(s.drop_last())
    } else {
        s
    }
}

/// `s` without the blank chars at its start and at its end.
pub open spec fn trim(s: Seq<char>) -> Seq<char> {
    trim_end(trim_start(s))
}

/// Whether `pattern` stands in `s` at the place `at`.
pub open spec fn stands_at(s: Seq<char>, pattern: Seq<char>, at: nat) -> bool {
    at + pattern.len() <= s.len() && s.subrange(at as int, (at + pattern.len()) as int) == pattern
}

/// The first place at or behind `from` at which `pattern` stands in `s`.
pub open spec fn find(s: Seq<char>, pattern: Seq<char>, from: nat) -> Option<nat>
    decreases s.len() + 1 - from,
{
    if from + pattern.len() > s.len() {
        None
    } else if stands_at(s, pattern, from) {
        Some(from)
    } else {
        find(s, pattern, from + 1)
    }
}

/// A decimal digit.
pub open spec fn is_digit(c: char) -> bool {
    '0' <= c <= '9'
}

/// The number that a decimal digit stands for.
pub open spec fn digit_value(c: char) -> nat {
    (c as u32 - '0' as u32) as nat
}

/// The digit that stands for a number below ten.
pub open spec fn digit_char(d: nat) -> char {
    if d == 0 {
        '0'
    } else if d == 1 {
        '1'
    } else if d == 2 {
        '2'
    } else if d == 3 {
        '3'
    } else if d == 4 {
        '4'
    } else if d == 5 {
        '5'
    } else if d == 6 {
        '6'
    } else if d == 7 {
        '7'
    } else if d == 8 {
        '8'
    } else {
        '9'
    }
}

pub open spec fn all_digits(s: Seq<char>) -> bool {
    forall|i: int| 0 <= i < s.len() ==> is_digit(#[trigger] s[i])
}

/// The number that decimal digits stand for.
pub open spec fn decimal_value(s: Seq<char>) -> nat
    decreases s.len(),
{
    if s.len() == 0 {
        0
    } else {
        decimal_value(s.drop_last()) * 10 + digit_value(s.last())
    }
}

/// The decimal digits of a number, without leading zeros.
pub open spec fn decimal_digits(n: nat) -> Seq<char>
    decreases n,
{
    if n < 10 {
        seq![digit_char(n)]
    } else {
        decimal_digits(n / 10).push(digit_char(n % 10))
    }
}

/// The length that the value of a `Content-Length` header gives: the
/// value has to be decimal digits, at least one, of a number that fits the
/// machine.
pub open spec fn content_length_of(value: Seq<char>) -> Option<usize> {
    if value.len() > 0 && all_digits(value) && decimal_value(value) <= usize::MAX {
        Some(decimal_value(value) as usize)
    } else {
        None
    }
}

/// `s` up to its first semicolon, or all of it.
pub open spec fn until_semicolon(s: Seq<char>) -> Seq<char>
    decreases s.len(),
{
    if s.len() == 0 || s[0] == ';' {
        Seq::empty()
    } else {
        seq![s[0]] + until_semicolon(s.drop_first())
    }
}

/// The charset that the value of a `Content-Type` header names, if it
/// names one.
pub open spec fn charset_of(value: Seq<char>) -> Option<Seq<char>> {
    match find(value, "charset="@, 0) {
        Some(at) => Some(trim(until_semicolon(value.skip((at + "charset="@.len()) as int)))),
        None => None,
    }
}

/// Whether the value of a `Content-Type` header is one to go along with:
/// it names no charset, or UTF-8 in one of its two spellings.
pub open spec fn names_utf8(value: Seq<char>) -> bool {
    match charset_of(value) {
        Some(charset) => charset == "utf-8"@ || charset == "utf8"@,
        None => true,
    }
}

/// Why a frame is turned down.
#[derive(Clone, Copy, Debug, PartialEq, Eq, Structural, Hash)]
pub enum FrameError {
    /// The headers ended and none gave the length.
    MissingContentLength,
    /// The length is no number, or none that fits.
    InvalidContentLength,
    /// The content is in a charset other than UTF-8.
    UnsupportedContentType,
}

/// What the header lines read so far have said.
#[derive(Clone, Copy, Debug, PartialEq, Eq, Structural, Hash)]
pub struct Headers {
    pub content_length: Option<usize>,
}

/// What follows a header line.
#[derive(Clone, Copy, Debug, PartialEq, Eq, Structural, Hash)]
pub enum HeaderStep {
    /// Another header line.
    More(Headers),
    /// The payload, of this many bytes and not one more.
    Body(usize),
    /// Nothing: the frame is turned down.
    Reject(FrameError),
}

/// What follows the header line `line`, read with its line ending.
///
/// The empty line ends the headers: the payload follows if its length
/// is known. A line `name: value` is the header `name`. `Content-Length`
/// gives the length, the last one counts. `Content-Type` is gone along
/// with if it names UTF-8. Any other line is passed over.
pub open spec fn header_step(headers: Headers, line: Seq<char>) -> HeaderStep {
    if line == "\r\n"@ {
        match headers.content_length {
            Some(n) => HeaderStep::Body(n),
            None => HeaderStep::Reject(FrameError::MissingContentLength),
        }
    } else {
        let content = trim(line);
        match find(content, ": "@, 0) {
            None => HeaderStep::More(headers),
            Some(at) => {
                let name = content.take(at as int);
                let value = content.skip((at + 2) as int);
                if name == "Content-Length"@ {
                    match content_length_of(value) {
                        Some(n) => HeaderStep::More(Headers { content_length: Some(n) }),
                        None => HeaderStep::Reject(FrameError::InvalidContentLength),
                    }
                } else if name == "Content-Type"@ {
                    if names_utf8(value) {
                        HeaderStep::More(headers)
                    } else {
                        HeaderStep::Reject(FrameError::UnsupportedContentType)
                    }
                } else {
                    HeaderStep::More(headers)
                }
            },
        }
    }
}

/// The header of a frame with a payload of `len` bytes.
pub open spec fn frame_header_of(len: nat) -> Seq<char> {
    "Content-Length: "@ + decimal_digits(len) + "\r\n\r\n"@
}

pub proof fn lemma_decimal_prefix(s: Seq<char>, upto: int)
    requires
        0 <= upto <= s.len(),
    ensures
        decimal_value(s.take(upto)) <= decimal_value(s),
    decreases s.len() - upto,
{
    if upto < s.len() {
        lemma_decimal_prefix(s.drop_last(), upto);
        assert(s.drop_last().take(upto) =~= s.take(upto));
    } else {
        assert(s.take(upto) =~= s);
    }
}

/// The digits of a number are digits, and stand for the number.
pub proof fn lemma_decimal_digits(n: nat)
    ensures
        decimal_digits(n).len() > 0,
        all_digits(decimal_digits(n)),
        decimal_value(decimal_digits(n)) == n,
    decreases n,
{
    if n < 10 {
        let s = seq![digit_char(n)];
        assert(s.drop_last() =~= Seq::<char>::empty());
        assert(decimal_value(s.drop_last()) == 0);
        assert(s.last() == digit_char(n));
    } else {
        lemma_decimal_digits(n / 10);
        let before = decimal_digits(n / 10);
        let s = before.push(digit_char(n % 10));
        assert(s.drop_last() =~= before);
        assert(s.last() == digit_char(n % 10));
        assert forall|i: int| 0 <= i < s.len() implies is_digit(#[trigger] s[i]) by {
            if i < before.len() {
                assert(s[i] == before[i]);
            }
        }
    }
}

fn blank(c: char) -> (b: bool)
    ensures
        b == is_blank(c),
{
    c == ' ' || c == '\t' || c == '\r' || c == '\n'
}

/// The bounds of what is left of `chars` between `from` and `to` without
/// the blank chars at both ends.
fn trim_range(chars: &Vec<char>, from: usize, to: usize) -> (r: (usize, usize))
    requires
        from <= to <= chars@.len(),
    ensures
        from <= r.0 <= r.1 <= to,
        chars@.subrange(r.0 as int, r.1 as int) == trim(chars@.subrange(from as int, to as int)),
{
    let ghost s = chars@;
    let mut a = from;
    while a < to && blank(chars[a])
        invariant
            from <= a <= to <= s.len(),
            s == chars@,
            trim_start(s.subrange(from as int, to as int)) == trim_start(
                s.subrange(a as int, to as int),
            ),
        decreases to - a,
    {
        assert(s.subrange(a as int, to as int).drop_first() =~= s.subrange(a + 1, to as int));
        a += 1;
    }
    let mut b = to;
    while a < b && blank(chars[b - 1])
        invariant
            a <= b <= to <= s.len(),
            s == chars@,
            trim_end(s.subrange(a as int, to as int)) == trim_end(s.subrange(a as int, b as int)),
        decreases b - a,
    {
        assert(s.subrange(a as int, b as int).drop_last() =~= s.subrange(a as int, b - 1));
        b -= 1;
    }
    (a, b)
}

/// Whether the chars between `from` and `to` are those of `text`.
fn range_is(chars: &Vec<char>, from: usize, to: usize, text: &str) -> (b: bool)
    requires
        from <= to <= chars@.len(),
    ensures
        b == (chars@.subrange(from as int, to as int) == text@),
{
    let len = text.unicode_len();
    if to - from != len {
        return false;
    }
    let ghost part = chars@.subrange(from as int, to as int);
    let mut i: usize = 0;
    while i < len
        invariant
            i <= len,
            len == text@.len(),
            len == to - from,
            to <= chars@.len(),
            part == chars@.subrange(from as int, to as int),
            part.take(i as int) == text@.take(i as int),
        decreases len - i,
    {
        if chars[from + i] != text.get_char(i) {
            assert(part[i as int] != text@[i as int]);
            return false;
        }
        assert(part.take(i + 1) =~= part.take(i as int).push(part[i as int]));
        assert(text@.take(i + 1) =~= text@.take(i as int).push(text@[i as int]));
        i += 1;
    }
    assert(part.take(len as int) =~= part);
    assert(text@.take(len as int) =~= text@);
    true
}

/// The first place at or behind `from` at which `pattern` stands between
/// `lo` and `hi`, counted from `lo`.
fn find_in(chars: &Vec<char>, lo: usize, hi: usize, pattern: &str) -> (at: Option<usize>)
    requires
        lo <= hi <= chars@.len(),
        pattern@.len() > 0,
    ensures
        at matches Some(i) ==> find(chars@.subrange(lo as int, hi as int), pattern@, 0) == Some(
            i as nat,
        ) && i + pattern@.len() <= hi - lo,
        at is None ==> find(chars@.subrange(lo as int, hi as int), pattern@, 0) is None,
{
    let ghost s = chars@.subrange(lo as int, hi as int);
    let len = pattern.unicode_len();
    let mut i: usize = 0;
    while len <= hi - lo && i <= hi - lo - len
        invariant
            lo <= hi <= chars@.len(),
            0 < len == pattern@.len(),
            s == chars@.subrange(lo as int, hi as int),
            i <= hi - lo,
            find(s, pattern@, 0) == find(s, pattern@, i as nat),
        decreases hi - lo + 1 - i,
    {
        if range_is(chars, lo + i, lo + i + len, pattern) {
            assert(s.subrange(i as int, i + len) =~= chars@.subrange(lo + i, lo + i + len));
            return Some(i);
        }
        assert(s.subrange(i as int, i + len) =~= chars@.subrange(lo + i, lo + i + len));
        i += 1;
    }
    None
}

/// Reads decimal digits between `from` and `to`.
fn read_decimal(chars: &Vec<char>, from: usize, to: usize) -> (n: Option<usize>)
    requires
        from <= to <= chars@.len(),
    ensures
        n == content_length_of(chars@.subrange(from as int, to as int)),
{
    let ghost s = chars@.subrange(from as int, to as int);
    if from == to {
        return None;
    }
    let mut value: usize = 0;
    let mut i: usize = from;
    assert(s.take(0) =~= Seq::<char>::empty());
    while i < to
        invariant
            from <= i <= to <= chars@.len(),
            s == chars@.subrange(from as int, to as int),
            all_digits(s.take(i - from)),
            value == decimal_value(s.take(i - from)),
        decreases to - i,
    {
        let c = chars[i];
        assert(s[i - from] == c);
        if !('0' <= c && c <= '9') {
            return None;
        }
        let digit = (c as u32 - '0' as u32) as usize;
        let ghost upto = s.take(i - from + 1);
        proof {
            assert(upto.drop_last() =~= s.take(i - from));
            assert(upto.last() == c);
            lemma_decimal_prefix(s, i - from + 1);
        }
        value = match value.checked_mul(10) {
            Some(tens) => match tens.checked_add(digit) {
                Some(sum) => sum,
                None => { return None; },
            },
            None => { return None; },
        };
        proof {
            assert forall|k: int| 0 <= k < upto.len() implies is_digit(#[trigger] upto[k]) by {
                if k < i - from {
                    assert(upto[k] == s.take(i - from)[k]);
                }
            }
        }
        i += 1;
    }
    assert(s.take(to - from) =~= s);
    Some(value)
}

/// Whether the value between `from` and `to` names UTF-8, or no charset.
fn value_names_utf8(chars: &Vec<char>, from: usize, to: usize) -> (b: bool)
    requires
        from <= to <= chars@.len(),
    ensures
        b == names_utf8(chars@.subrange(from as int, to as int)),
{
    let ghost value = chars@.subrange(from as int, to as int);
    proof {
        reveal_strlit("charset=");
    }
    let at = match find_in(chars, from, to, "charset=") {
        Some(at) => at,
        None => { return true; },
    };
    let start = from + at + 8;
    let ghost rest = value.skip(at + 8);
    assert(rest =~= chars@.subrange(start as int, to as int));
    let mut end = start;
    assert(chars@.subrange(start as int, start as int) =~= Seq::<char>::empty());
    while end < to && chars[end] != ';'
        invariant
            start <= end <= to <= chars@.len(),
            until_semicolon(chars@.subrange(start as int, to as int)) == chars@.subrange(
                start as int,
                end as int,
            ) + until_semicolon(chars@.subrange(end as int, to as int)),
        decreases to - end,
    {
        assert(chars@.subrange(end as int, to as int).drop_first() =~= chars@.subrange(
            end + 1,
            to as int,
        ));
        assert(chars@.subrange(start as int, end as int) + seq![chars@[end as int]]
            =~= chars@.subrange(start as int, end + 1));
        end += 1;
    }
    assert(until_semicolon(rest) =~= chars@.subrange(start as int, end as int));
    let (a, b) = trim_range(chars, start, end);
    range_is(chars, a, b, "utf-8") || range_is(chars, a, b, "utf8")
}

/// Reads one header line, with its line ending, and says what follows.
pub fn read_header_line(headers: Headers, line: &str) -> (step: HeaderStep)
    ensures
        step == header_step(headers, line@),
{
    let chars = chars_of(line);
    if range_is(&chars, 0, chars.len(), "\r\n") {
        assert(chars@.subrange(0, chars@.len() as int) =~= chars@);
        return match headers.content_length {
            Some(n) => HeaderStep::Body(n),
            None => HeaderStep::Reject(FrameError::MissingContentLength),
        };
    }
    assert(chars@.subrange(0, chars@.len() as int) =~= chars@);
    let (a, b) = trim_range(&chars, 0, chars.len());
    let ghost content = chars@.subrange(a as int, b as int);
    proof {
        reveal_strlit(": ");
    }
    let at = match find_in(&chars, a, b, ": ") {
        Some(at) => at,
        None => { return HeaderStep::More(headers); },
    };
    assert(content.take(at as int) =~= chars@.subrange(a as int, a + at));
    assert(content.skip(at + 2) =~= chars@.subrange(a + at + 2, b as int));
    if range_is(&chars, a, a + at, "Content-Length") {
        match read_decimal(&chars, a + at + 2, b) {
            Some(n) => HeaderStep::More(Headers { content_length: Some(n) }),
            None => HeaderStep::Reject(FrameError::InvalidContentLength),
        }
    } else if range_is(&chars, a, a + at, "Content-Type") {
        if value_names_utf8(&chars, a + at + 2, b) {
            HeaderStep::More(headers)
        } else {
            HeaderStep::Reject(FrameError::UnsupportedContentType)
        }
    } else {
        HeaderStep::More(headers)
    }
}

/// The digit that stands for a number below ten, as a string.
fn digit_of(d: u64) -> (s: &'static str)
    requires
        d < 10,
    ensures
        s@ == seq![digit_char(d as nat)],
{
    proof {
        reveal_strlit("0");
        reveal_strlit("1");
        reveal_strlit("2");
        reveal_strlit("3");
        reveal_strlit("4");
        reveal_strlit("5");
        reveal_strlit("6");
        reveal_strlit("7");
        reveal_strlit("8");
        reveal_strlit("9");
    }
    let s = if d == 0 {
        "0"
    } else if d == 1 {
        "1"
    } else if d == 2 {
        "2"
    } else if d == 3 {
        "3"
    } else if d == 4 {
        "4"
    } else if d == 5 {
        "5"
    } else if d == 6 {
        "6"
    } else if d == 7 {
        "7"
    } else if d == 8 {
        "8"
    } else {
        "9"
    };
    assert(s@ =~= seq![digit_char(d as nat)]);
    s
}

/// Writes a number in decimal digits.
pub fn write_decimal(n: u64) -> (s: String)
    ensures
        s@ == decimal_digits(n as nat),
    decreases n,
{
    if n < 10 {
        digit_of(n).to_owned()
    } else {
        let s = write_decimal(n / 10).concat(digit_of(n % 10));
        assert(s@ =~= decimal_digits((n / 10) as nat).push(digit_char((n % 10) as nat)));
        s
    }
}

/// The header of a frame with a payload of `len` bytes: the one header
/// that is needed, and the empty line.
pub fn frame_header(len: usize) -> (s: String)
    ensures
        s@ == frame_header_of(len as nat),
{
    let digits = write_decimal(len as u64);
    "Content-Length: ".to_owned().concat(digits.as_str()).concat("\r\n\r\n")
}

/// Frames a message: its header, then the message.
pub fn frame(payload: &str) -> (s: String)
    ensures
        s@ == frame_header_of(payload.len() as nat) + payload@,
{
    frame_header(payload.len()).concat(payload)
}

/// The header that `frame_header` writes for a length reads back as that
/// length: its first line gives the length, its second line ends the
/// headers and asks for that many bytes.
pub proof fn lemma_frame_header_reads_back(len: usize, headers: Headers)
    ensures
        frame_header_of(len as nat) == ("Content-Length: "@ + decimal_digits(len as nat) + "\r\n"@)
            + "\r\n"@,
        header_step(headers, "Content-Length: "@ + decimal_digits(len as nat) + "\r\n"@)
            == HeaderStep::More(Headers { content_length: Some(len) }),
        header_step(Headers { content_length: Some(len) }, "\r\n"@) == HeaderStep::Body(len),
{
    reveal_strlit("Content-Length: ");
    reveal_strlit("Content-Length");
    reveal_strlit("Content-Type");
    reveal_strlit("\r\n");
    reveal_strlit("\r\n\r\n");
    reveal_strlit(": ");
    let name = "Content-Length: "@;
    let digits = decimal_digits(len as nat);
    let line = name + digits + "\r\n"@;
    lemma_decimal_digits(len as nat);
    assert(frame_header_of(len as nat) =~= line + "\r\n"@);
    assert(line.len() > 2);
    // nothing to trim at the start, the line ending to trim at the end
    let content = name + digits;
    assert(line[0] == 'C');
    assert(trim_start(line) == line);
    assert(line.drop_last() =~= content + seq!['\r']);
    assert((content + seq!['\r']).drop_last() =~= content);
    assert(is_digit(digits[digits.len() - 1]));
    assert(content.last() == digits[digits.len() - 1]);
    assert(trim_end(content) == content);
    assert(trim_end(content + seq!['\r']) == content);
    assert(trim_end(line) == content);
    // the separator stands behind the name
    assert forall|i: nat| i < 14 implies !stands_at(content, ": "@, i) by {
        let part = content.subrange(i as int, (i + 2) as int);
        assert(part[0] == content[i as int]);
        assert(part[1] == content[(i + 1) as int]);
        assert(": "@[0] == ':' && ": "@[1] == ' ');
        if part == ": "@ {
            assert(content[i as int] == ':');
        }
    }
    assert(content.subrange(14, 16) =~= ": "@);
    lemma_find_first(content, ": "@, 0, 14);
    assert(content.take(14) =~= "Content-Length"@);
    assert(content.skip(16) =~= digits);
}

/// Where a pattern stands at a place and at none before it, it is found
/// at that place.
pub proof fn lemma_find_first(s: Seq<char>, pattern: Seq<char>, from: nat, at: nat)
    requires
        from <= at,
        stands_at(s, pattern, at),
        forall|i: nat| from <= i < at ==> !stands_at(s, pattern, i),
    ensures
        find(s, pattern, from) == Some(at),
    decreases at - from,
{
    if from < at {
        lemma_find_first(s, pattern, from + 1, at);
    }
}

} // verus!
