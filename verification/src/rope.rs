//! The rope that holds a document, and what this library asks of it.
//!
//! The rope is built without its features `cr_lines` and `unicode_lines`:
//! it counts a line feed, and nothing else, as the end of a line.

use crate::text::{char_at_offset, code_units, line_count, line_of, line_start, offset_of};
use crate::OffsetEncoding;
use vstd::prelude::*;

verus! {

#[verifier::external_type_specification]
#[verifier::external_body]
pub struct ExRope(ropey::Rope);

/// The chars that a rope holds, in order.
pub uninterp spec fn rope_text(rope: ropey::Rope) -> Seq<char>;

/// `Rope::len_chars`: the number of chars in the rope.
#[verifier::external_body]
pub(crate) fn len_chars(doc: &ropey::Rope) -> (n: usize)
    ensures
        n == rope_text(*doc).len(),
{
    doc.len_chars()
}

/// `Rope::len_lines`: one more than the number of line feeds in the rope.
#[verifier::external_body]
pub(crate) fn len_lines(doc: &ropey::Rope) -> (n: usize)
    ensures
        n == line_count(rope_text(*doc)),
{
    doc.len_lines()
}

/// `Rope::line_to_char`: the char index at which a line starts. The line
/// one past the last is accepted and starts at the end of the rope; a line
/// further on makes the rope panic.
#[verifier::external_body]
pub(crate) fn line_to_char(doc: &ropey::Rope, line: usize) -> (c: usize)
    requires
        line <= line_count(rope_text(*doc)),
    ensures
        c == line_start(rope_text(*doc), line as nat),
{
    doc.line_to_char(line)
}

/// `Rope::line_to_byte`: the byte offset at which a line starts, with the
/// same bounds as `line_to_char`.
#[verifier::external_body]
pub(crate) fn line_to_byte(doc: &ropey::Rope, line: usize) -> (b: usize)
    requires
        line <= line_count(rope_text(*doc)),
    ensures
        b == offset_of(OffsetEncoding::Utf8, rope_text(*doc), line_start(rope_text(*doc), line as nat)),
{
    doc.line_to_byte(line)
}

/// `Rope::char_to_line`: the number of line feeds before a char. The index
/// may be the length of the rope; a larger one makes the rope panic.
#[verifier::external_body]
pub(crate) fn char_to_line(doc: &ropey::Rope, c: usize) -> (line: usize)
    requires
        c <= rope_text(*doc).len(),
    ensures
        line == line_of(rope_text(*doc), c as nat),
{
    doc.char_to_line(c)
}

/// `Rope::char_to_byte`: the byte offset at which a char starts, with the
/// same bounds as `char_to_line`.
#[verifier::external_body]
pub(crate) fn char_to_byte(doc: &ropey::Rope, c: usize) -> (b: usize)
    requires
        c <= rope_text(*doc).len(),
    ensures
        b == offset_of(OffsetEncoding::Utf8, rope_text(*doc), c as nat),
{
    doc.char_to_byte(c)
}

/// `Rope::char_to_utf16_cu`: the UTF-16 offset at which a char starts, with
/// the same bounds as `char_to_line`.
#[verifier::external_body]
pub(crate) fn char_to_utf16_cu(doc: &ropey::Rope, c: usize) -> (u: usize)
    requires
        c <= rope_text(*doc).len(),
    ensures
        u == offset_of(OffsetEncoding::Utf16, rope_text(*doc), c as nat),
{
    doc.char_to_utf16_cu(c)
}

/// `Rope::try_byte_to_char`: the index of the char that holds a byte, the
/// length of the rope for the offset at its end, nothing for an offset
/// past the end, where the rope gives an error.
#[verifier::external_body]
pub(crate) fn try_byte_to_char(doc: &ropey::Rope, b: usize) -> (r: Option<usize>)
    ensures
        r is Some <==> b <= code_units(OffsetEncoding::Utf8, rope_text(*doc)),
        r is Some ==> r->Some_0 == char_at_offset(OffsetEncoding::Utf8, rope_text(*doc), b as nat),
{
    doc.try_byte_to_char(b).ok()
}

/// `Rope::try_utf16_cu_to_char`: the index of the char that holds a UTF-16
/// code unit, the length of the rope for the offset at its end, nothing
/// for an offset past the end, where the rope gives an error.
#[verifier::external_body]
pub(crate) fn try_utf16_cu_to_char(doc: &ropey::Rope, u: usize) -> (r: Option<usize>)
    ensures
        r is Some <==> u <= code_units(OffsetEncoding::Utf16, rope_text(*doc)),
        r is Some ==> r->Some_0 == char_at_offset(OffsetEncoding::Utf16, rope_text(*doc), u as nat),
{
    doc.try_utf16_cu_to_char(u).ok()
}

/// `Rope::char`: the char at an index below the length of the rope.
#[verifier::external_body]
pub(crate) fn char_at(doc: &ropey::Rope, c: usize) -> (ch: char)
    requires
        c < rope_text(*doc).len(),
    ensures
        ch == rope_text(*doc)[c as int],
{
    doc.char(c)
}

/// `Rope::insert`: puts `text` in front of the char with index `c`, or at
/// the end where `c` is the length of the rope. A larger index makes the
/// rope panic.
#[verifier::external_body]
pub(crate) fn insert(doc: &mut ropey::Rope, c: usize, text: &str)
    requires
        c <= rope_text(*old(doc)).len(),
    ensures
        rope_text(*final(doc)) == rope_text(*old(doc)).take(c as int) + text@ + rope_text(
            *old(doc),
        ).skip(c as int),
{
    doc.insert(c, text)
}

/// `Rope::remove`: takes out the chars from index `start` up to, and
/// without, index `end`. The rope panics where `start` is larger than `end`
/// or `end` is larger than its length.
#[verifier::external_body]
pub(crate) fn remove(doc: &mut ropey::Rope, start: usize, end: usize)
    requires
        start <= end <= rope_text(*old(doc)).len(),
    ensures
        rope_text(*final(doc)) == rope_text(*old(doc)).take(start as int) + rope_text(
            *old(doc),
        ).skip(end as int),
{
    doc.remove(start..end)
}

} // verus!
