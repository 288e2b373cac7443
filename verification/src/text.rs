//! The mathematical model of a document: a sequence of chars, measured in
//! code units of the three encodings and cut into lines at every line feed.

use crate::OffsetEncoding;
use vstd::prelude::*;

verus! {

/// Number of code units that `c` takes in `enc`.
pub open spec fn unit_width(enc: OffsetEncoding, c: char) -> nat {
    match enc {
        OffsetEncoding::Utf8 => if (c as u32) < 0x80 {
            1nat
        } else if (c as u32) < 0x800 {
            2nat
        } else if (c as u32) < 0x1_0000 {
            3nat
        } else {
            4nat
        },
        OffsetEncoding::Utf16 => if (c as u32) < 0x1_0000 {
            1nat
        } else {
            2nat
        },
        OffsetEncoding::Utf32 => 1nat,
    }
}

/// Number of code units that the whole of `s` takes in `enc`.
pub open spec fn code_units(enc: OffsetEncoding, s: Seq<char>) -> nat
    decreases s.len(),
{
    if s.len() == 0 {
        0
    } else {
        unit_width(enc, s[0]) + code_units(enc, s.drop_first())
    }
}

/// Offset, in code units of `enc`, at which the char with index `c` starts.
pub open spec fn offset_of(enc: OffsetEncoding, text: Seq<char>, c: nat) -> nat {
    code_units(enc, text.take(c as int))
}

/// Index of the char that holds the code unit at offset `u`: the number of
/// chars that end at or before `u`. An offset inside a char gives that char,
/// an offset at or past the end gives the length of `s`.
pub open spec fn char_at_offset(enc: OffsetEncoding, s: Seq<char>, u: nat) -> nat
    decreases s.len(),
{
    if s.len() == 0 || u < unit_width(enc, s[0]) {
        0
    } else {
        1 + char_at_offset(enc, s.drop_first(), (u - unit_width(enc, s[0])) as nat)
    }
}

/// Number of line feeds in `s`.
pub open spec fn line_breaks(s: Seq<char>) -> nat
    decreases s.len(),
{
    if s.len() == 0 {
        0
    } else {
        (if s[0] == '\n' {
            1nat
        } else {
            0nat
        }) + line_breaks(s.drop_first())
    }
}

/// Number of lines of `text`: one more than it has line feeds.
pub open spec fn line_count(text: Seq<char>) -> nat {
    line_breaks(text) + 1
}

/// Index of the line that holds the char with index `c`: the number of line
/// feeds before it.
pub open spec fn line_of(text: Seq<char>, c: nat) -> nat {
    line_breaks(text.take(c as int))
}

/// Index of the first char of line `l`: the char behind the `l`-th line
/// feed. A line past the last one starts at the end of `s`.
pub open spec fn line_start(s: Seq<char>, l: nat) -> nat
    decreases s.len(),
{
    if l == 0 || s.len() == 0 {
        0
    } else {
        1 + line_start(
            s.drop_first(),
            if s[0] == '\n' {
                (l - 1) as nat
            } else {
                l
            },
        )
    }
}

/// Index of the char at which the terminator of line `l` starts, that is the
/// end of what the line holds. The terminator is a line feed, or a carriage
/// return and a line feed; the last line has none.
pub open spec fn line_end(text: Seq<char>, l: nat) -> nat {
    let start = line_start(text, l);
    let next = line_start(text, l + 1);
    if next >= start + 2 && text[next - 2] == '\r' && text[next - 1] == '\n' {
        (next - 2) as nat
    } else if next >= start + 1 && text[next - 1] == '\n' {
        (next - 1) as nat
    } else {
        next
    }
}

/// Whether the char index `c` falls between the carriage return and the
/// line feed of one line terminator.
pub open spec fn inside_crlf(text: Seq<char>, c: nat) -> bool {
    0 < c < text.len() && text[c - 1] == '\r' && text[c as int] == '\n'
}

pub proof fn lemma_code_units_concat(enc: OffsetEncoding, a: Seq<char>, b: Seq<char>)
    ensures
        code_units(enc, a + b) == code_units(enc, a) + code_units(enc, b),
    decreases a.len(),
{
    if a.len() == 0 {
        assert(a + b =~= b);
    } else {
        assert((a + b).drop_first() =~= a.drop_first() + b);
        lemma_code_units_concat(enc, a.drop_first(), b);
    }
}

pub proof fn lemma_code_units_bounds(enc: OffsetEncoding, s: Seq<char>)
    ensures
        s.len() <= code_units(enc, s) <= 4 * s.len(),
        code_units(OffsetEncoding::Utf32, s) == s.len(),
    decreases s.len(),
{
    if s.len() > 0 {
        lemma_code_units_bounds(enc, s.drop_first());
        lemma_code_units_bounds(OffsetEncoding::Utf32, s.drop_first());
    }
}

/// Offsets grow with the char index, by at least one unit for each char.
pub proof fn lemma_offset_monotonic(enc: OffsetEncoding, text: Seq<char>, c1: nat, c2: nat)
    requires
        c1 <= c2 <= text.len(),
    ensures
        offset_of(enc, text, c1) + (c2 - c1) <= offset_of(enc, text, c2),
        offset_of(enc, text, c2) == offset_of(enc, text, c1) + code_units(
            enc,
            text.subrange(c1 as int, c2 as int),
        ),
{
    assert(text.take(c2 as int) =~= text.take(c1 as int) + text.subrange(c1 as int, c2 as int));
    lemma_code_units_concat(enc, text.take(c1 as int), text.subrange(c1 as int, c2 as int));
    lemma_code_units_bounds(enc, text.subrange(c1 as int, c2 as int));
}

pub proof fn lemma_offset_of_len(enc: OffsetEncoding, text: Seq<char>)
    ensures
        offset_of(enc, text, text.len()) == code_units(enc, text),
        offset_of(enc, text, 0) == 0,
{
    assert(text.take(text.len() as int) =~= text);
    assert(text.take(0) =~= Seq::<char>::empty());
}

pub proof fn lemma_char_at_offset_bound(enc: OffsetEncoding, s: Seq<char>, u: nat)
    ensures
        char_at_offset(enc, s, u) <= s.len(),
        u >= code_units(enc, s) ==> char_at_offset(enc, s, u) == s.len(),
    decreases s.len(),
{
    if !(s.len() == 0 || u < unit_width(enc, s[0])) {
        lemma_char_at_offset_bound(enc, s.drop_first(), (u - unit_width(enc, s[0])) as nat);
    }
}

/// The char found at the offset of a char index is that index.
pub proof fn lemma_char_at_offset_of(enc: OffsetEncoding, text: Seq<char>, c: nat)
    requires
        c <= text.len(),
    ensures
        char_at_offset(enc, text, offset_of(enc, text, c)) == c,
    decreases text.len(),
{
    if c == 0 {
        assert(text.take(0) =~= Seq::<char>::empty());
    } else {
        let rest = text.drop_first();
        assert(text.take(c as int).drop_first() =~= rest.take(c - 1));
        assert(text.take(c as int)[0] == text[0]);
        lemma_char_at_offset_of(enc, rest, (c - 1) as nat);
    }
}

/// An offset within the text lies within the char that is found at it:
/// the char starts at or before the offset, and the next char behind it.
pub proof fn lemma_char_at_offset_holds(enc: OffsetEncoding, text: Seq<char>, u: nat)
    requires
        u < code_units(enc, text),
    ensures
        char_at_offset(enc, text, u) < text.len(),
        offset_of(enc, text, char_at_offset(enc, text, u)) <= u,
        u < offset_of(enc, text, char_at_offset(enc, text, u) + 1),
    decreases text.len(),
{
    let w = unit_width(enc, text[0]);
    let rest = text.drop_first();
    if u < w {
        assert(text.take(0) =~= Seq::<char>::empty());
        assert(text.take(1).drop_first() =~= Seq::<char>::empty());
        assert(text.take(1)[0] == text[0]);
    } else {
        let k = char_at_offset(enc, rest, (u - w) as nat);
        lemma_char_at_offset_holds(enc, rest, (u - w) as nat);
        assert(text.take((k + 1) as int).drop_first() =~= rest.take(k as int));
        assert(text.take((k + 1) as int)[0] == text[0]);
        assert(text.take((k + 2) as int).drop_first() =~= rest.take((k + 1) as int));
        assert(text.take((k + 2) as int)[0] == text[0]);
    }
}

pub proof fn lemma_line_breaks_concat(a: Seq<char>, b: Seq<char>)
    ensures
        line_breaks(a + b) == line_breaks(a) + line_breaks(b),
    decreases a.len(),
{
    if a.len() == 0 {
        assert(a + b =~= b);
    } else {
        assert((a + b).drop_first() =~= a.drop_first() + b);
        lemma_line_breaks_concat(a.drop_first(), b);
    }
}

pub proof fn lemma_line_breaks_bound(s: Seq<char>)
    ensures
        line_breaks(s) <= s.len(),
    decreases s.len(),
{
    if s.len() > 0 {
        lemma_line_breaks_bound(s.drop_first());
    }
}

/// A char further on lies on the same line or on a later one, and every
/// char lies on one of the lines of the text.
pub proof fn lemma_line_of_monotonic(text: Seq<char>, c1: nat, c2: nat)
    requires
        c1 <= c2 <= text.len(),
    ensures
        line_of(text, c1) <= line_of(text, c2) <= line_breaks(text),
        line_of(text, text.len()) == line_breaks(text),
{
    assert(text.take(c2 as int) =~= text.take(c1 as int) + text.subrange(c1 as int, c2 as int));
    lemma_line_breaks_concat(text.take(c1 as int), text.subrange(c1 as int, c2 as int));
    assert(text =~= text.take(c2 as int) + text.skip(c2 as int));
    lemma_line_breaks_concat(text.take(c2 as int), text.skip(c2 as int));
    assert(text.take(text.len() as int) =~= text);
}

pub proof fn lemma_line_start_bound(s: Seq<char>, l: nat)
    ensures
        line_start(s, l) <= s.len(),
        l > line_breaks(s) ==> line_start(s, l) == s.len(),
    decreases s.len(),
{
    if !(l == 0 || s.len() == 0) {
        let l2 = if s[0] == '\n' {
            (l - 1) as nat
        } else {
            l
        };
        lemma_line_start_bound(s.drop_first(), l2);
    }
}

pub proof fn lemma_line_start_monotonic(s: Seq<char>, l1: nat, l2: nat)
    requires
        l1 <= l2,
    ensures
        line_start(s, l1) <= line_start(s, l2),
    decreases s.len(),
{
    if !(l1 == 0 || s.len() == 0) {
        if s[0] == '\n' {
            lemma_line_start_monotonic(s.drop_first(), (l1 - 1) as nat, (l2 - 1) as nat);
        } else {
            lemma_line_start_monotonic(s.drop_first(), l1, l2);
        }
    }
}

/// A line of the text starts behind exactly as many line feeds as its
/// index says, the last of them right before it.
pub proof fn lemma_line_start_counts(s: Seq<char>, l: nat)
    requires
        l <= line_breaks(s),
    ensures
        line_of(s, line_start(s, l)) == l,
        l > 0 ==> line_start(s, l) > 0 && s[line_start(s, l) - 1] == '\n',
    decreases s.len(),
{
    if l == 0 || s.len() == 0 {
        assert(s.take(0) =~= Seq::<char>::empty());
    } else {
        let rest = s.drop_first();
        let l2 = if s[0] == '\n' {
            (l - 1) as nat
        } else {
            l
        };
        lemma_line_start_counts(rest, l2);
        lemma_line_start_bound(rest, l2);
        let k = line_start(rest, l2);
        assert(s.take((k + 1) as int).drop_first() =~= rest.take(k as int));
        assert(s.take((k + 1) as int)[0] == s[0]);
        if k > 0 {
            assert(rest[k - 1] == s[k as int]);
        }
    }
}

/// A char lies at or behind the start of its line, and before the start of
/// the next line unless it is the end of the text on its last line.
pub proof fn lemma_line_holds_char(s: Seq<char>, c: nat)
    requires
        c <= s.len(),
    ensures
        line_start(s, line_of(s, c)) <= c,
        c < line_start(s, line_of(s, c) + 1) || (c == s.len() && line_start(
            s,
            line_of(s, c) + 1,
        ) == s.len()),
    decreases s.len(),
{
    if c == 0 {
        assert(s.take(0) =~= Seq::<char>::empty());
    } else {
        let rest = s.drop_first();
        assert(s.take(c as int).drop_first() =~= rest.take(c - 1));
        assert(s.take(c as int)[0] == s[0]);
        lemma_line_holds_char(rest, (c - 1) as nat);
    }
}

/// What a line holds lies between its start and the start of the next line.
pub proof fn lemma_line_end_bounds(text: Seq<char>, l: nat)
    ensures
        line_start(text, l) <= line_end(text, l) <= line_start(text, l + 1) <= text.len(),
{
    lemma_line_start_monotonic(text, l, l + 1);
    lemma_line_start_bound(text, l + 1);
}

/// Every char index lies within what its line holds, but the one between
/// the two chars of a CRLF terminator.
pub proof fn lemma_char_within_line(text: Seq<char>, c: nat)
    requires
        c <= text.len(),
        !inside_crlf(text, c),
    ensures
        line_start(text, line_of(text, c)) <= c <= line_end(text, line_of(text, c)),
{
    let l = line_of(text, c);
    let start = line_start(text, l);
    let next = line_start(text, l + 1);
    lemma_line_holds_char(text, c);
    lemma_line_end_bounds(text, l);
    if c == text.len() && next == text.len() && next >= start + 1 && text[next - 1] == '\n' {
        // the text ends in a line feed, so its last line starts at the end
        lemma_line_of_monotonic(text, c, c);
        lemma_line_start_counts(text, l);
        lemma_line_of_monotonic(text, start, (next - 1) as nat);
        assert(text.take(next as int) =~= text.take(next - 1) + seq!['\n']);
        lemma_line_breaks_concat(text.take(next - 1), seq!['\n']);
        assert(seq!['\n'].drop_first() =~= Seq::<char>::empty());
        assert(line_breaks(seq!['\n']) == 1) by {
            assert(line_breaks(Seq::<char>::empty()) == 0);
        }
        assert(false);
    }
}

} // verus!
