//! Char indices of a document as positions of the protocol, and back.

pub use crate::completion::{
    generate_transaction_from_completion_edit, generate_transaction_from_snippet,
    try_generate_transaction_from_completion_edit, try_generate_transaction_from_snippet,
};
pub use crate::diagnostic::diagnostic_to_lsp_diagnostic;
pub use crate::edits::generate_transaction_from_edits;

use crate::lsp;
use crate::lsp::Position;
use crate::rope::{
    char_at, char_to_byte, char_to_line, char_to_utf16_cu, len_chars, len_lines, line_to_byte,
    line_to_char, rope_text, try_byte_to_char, try_utf16_cu_to_char,
};
use crate::selection::Range;
use crate::text::{
    char_at_offset, code_units, inside_crlf, lemma_char_at_offset_bound, lemma_char_at_offset_holds, lemma_char_at_offset_of,
    lemma_char_within_line, lemma_code_units_bounds, lemma_line_end_bounds,
    lemma_line_holds_char, lemma_line_of_monotonic, lemma_line_start_bound,
    lemma_line_start_monotonic, lemma_offset_monotonic, lemma_offset_of_len, line_count, line_end,
    line_of, line_start, offset_of,
};
use crate::OffsetEncoding;
use ropey::Rope;
use vstd::prelude::*;

verus! {

/// The offset, in code units of `enc` from the start of the text, that a
/// position names: the start of its line plus its `character`, but no
/// further than the end of what the line holds.
pub open spec fn clamped_offset(text: Seq<char>, pos: Position, enc: OffsetEncoding) -> nat {
    let start = offset_of(enc, text, line_start(text, pos.line as nat));
    let end = offset_of(enc, text, line_end(text, pos.line as nat));
    if start + pos.character <= end {
        start + pos.character as nat
    } else {
        end
    }
}

/// Whether a char of `text` starts at the offset `u`, or the text ends
/// there: the char that holds the offset starts at it.
pub open spec fn on_char_boundary(enc: OffsetEncoding, text: Seq<char>, u: nat) -> bool {
    offset_of(enc, text, char_at_offset(enc, text, u)) == u
}

/// The char index that a position names in `text`: the char that starts
/// at the clamped offset. A position on no line of the text names none,
/// and neither does one whose offset falls inside a char.
pub open spec fn position_to_char(text: Seq<char>, pos: Position, enc: OffsetEncoding) -> Option<
    nat,
> {
    if pos.line < line_count(text) && on_char_boundary(
        enc,
        text,
        clamped_offset(text, pos, enc),
    ) {
        Some(char_at_offset(enc, text, clamped_offset(text, pos, enc)))
    } else {
        None
    }
}

/// The offset of char `c` from the start of its line, in code units of `enc`.
pub open spec fn column_of(text: Seq<char>, c: nat, enc: OffsetEncoding) -> int {
    offset_of(enc, text, c) - offset_of(enc, text, line_start(text, line_of(text, c)))
}

/// Whether line and column of char `c` can be written as a position.
pub open spec fn position_fits(text: Seq<char>, c: nat, enc: OffsetEncoding) -> bool {
    &&& c <= text.len()
    &&& line_of(text, c) <= u32::MAX
    &&& column_of(text, c, enc) <= u32::MAX
}

/// The position that names char `c` of `text`.
pub open spec fn char_to_position(text: Seq<char>, c: nat, enc: OffsetEncoding) -> Position {
    Position { line: line_of(text, c) as u32, character: column_of(text, c, enc) as u32 }
}

/// The char index at which the terminator of a line starts.
fn line_end_char_index(doc: &Rope, line: usize) -> (end: usize)
    requires
        line < line_count(rope_text(*doc)) <= usize::MAX,
    ensures
        end == line_end(rope_text(*doc), line as nat),
        end <= rope_text(*doc).len(),
{
    proof {
        lemma_line_end_bounds(rope_text(*doc), line as nat);
    }
    let start = line_to_char(doc, line);
    let next = line_to_char(doc, line + 1);
    if next - start >= 2 && char_at(doc, next - 2) == '\r' && char_at(doc, next - 1) == '\n' {
        next - 2
    } else if next - start >= 1 && char_at(doc, next - 1) == '\n' {
        next - 1
    } else {
        next
    }
}

/// Converts a position of the protocol to a char index of the document.
///
/// A `character` past the end of the line names the end of the line,
/// before its terminator. The result is `None` exactly when the position's
/// line is not a line of the document, or its offset falls inside a char:
/// between the bytes of a char in UTF-8, between the two code units of a
/// char in UTF-16.
pub fn lsp_pos_to_pos(doc: &Rope, pos: Position, offset_encoding: OffsetEncoding) -> (r: Option<
    usize,
>)
    ensures
        r is Some <==> pos.line < line_count(rope_text(*doc)) && on_char_boundary(
            offset_encoding,
            rope_text(*doc),
            clamped_offset(rope_text(*doc), pos, offset_encoding),
        ),
        r is Some <==> position_to_char(rope_text(*doc), pos, offset_encoding) is Some,
        r is Some ==> Some(r->Some_0 as nat) == position_to_char(
            rope_text(*doc),
            pos,
            offset_encoding,
        ),
        r is Some ==> r->Some_0 <= rope_text(*doc).len(),
{
    let ghost text = rope_text(*doc);
    let pos_line = pos.line as usize;
    if pos_line > len_lines(doc) - 1 {
        return None;
    }
    let end_char = line_end_char_index(doc, pos_line);
    proof {
        lemma_line_end_bounds(text, pos_line as nat);
        lemma_offset_monotonic(
            offset_encoding,
            text,
            line_start(text, pos_line as nat),
            line_end(text, pos_line as nat),
        );
        lemma_offset_monotonic(offset_encoding, text, line_end(text, pos_line as nat), text.len());
        lemma_offset_of_len(offset_encoding, text);
        lemma_char_at_offset_bound(offset_encoding, text, clamped_offset(text, pos, offset_encoding));
    }
    let (line_start, line_end) = match offset_encoding {
        OffsetEncoding::Utf8 => (line_to_byte(doc, pos_line), char_to_byte(doc, end_char)),
        OffsetEncoding::Utf16 => (
            char_to_utf16_cu(doc, line_to_char(doc, pos_line)),
            char_to_utf16_cu(doc, end_char),
        ),
        OffsetEncoding::Utf32 => {
            proof {
                lemma_code_units_bounds(
                    OffsetEncoding::Utf32,
                    text.take(line_start(text, pos_line as nat) as int),
                );
                lemma_code_units_bounds(
                    OffsetEncoding::Utf32,
                    text.take(line_end(text, pos_line as nat) as int),
                );
            }
            (line_to_char(doc, pos_line), end_char)
        },
    };
    // the offset is capped to the end of the line
    let target = match line_start.checked_add(pos.character as usize) {
        Some(sum) => if sum < line_end {
            sum
        } else {
            line_end
        },
        None => line_end,
    };
    assert(target == clamped_offset(text, pos, offset_encoding));
    // the char that holds the offset has to start at it
    match offset_encoding {
        OffsetEncoding::Utf8 => match try_byte_to_char(doc, target) {
            Some(c) => if char_to_byte(doc, c) == target {
                Some(c)
            } else {
                None
            },
            None => None,
        },
        OffsetEncoding::Utf16 => match try_utf16_cu_to_char(doc, target) {
            Some(c) => if char_to_utf16_cu(doc, c) == target {
                Some(c)
            } else {
                None
            },
            None => None,
        },
        OffsetEncoding::Utf32 => {
            proof {
                lemma_char_at_offset_of(OffsetEncoding::Utf32, text, target as nat);
                lemma_code_units_bounds(OffsetEncoding::Utf32, text.take(target as int));
            }
            Some(target)
        },
    }
}

/// Converts a char index of the document to a position of the protocol.
///
/// The index may be the length of the document. Line and column have to
/// fit the 32 bits that a position gives each of them.
pub fn pos_to_lsp_pos(doc: &Rope, pos: usize, offset_encoding: OffsetEncoding) -> (r: Position)
    requires
        position_fits(rope_text(*doc), pos as nat, offset_encoding),
    ensures
        r == char_to_position(rope_text(*doc), pos as nat, offset_encoding),
        r.line < line_count(rope_text(*doc)),
{
    let ghost text = rope_text(*doc);
    proof {
        lemma_line_holds_char(text, pos as nat);
        lemma_line_of_monotonic(text, pos as nat, pos as nat);
        lemma_offset_monotonic(
            offset_encoding,
            text,
            line_start(text, line_of(text, pos as nat)),
            pos as nat,
        );
    }
    let line = char_to_line(doc, pos);
    match offset_encoding {
        OffsetEncoding::Utf8 => {
            let line_start = line_to_byte(doc, line);
            let col = char_to_byte(doc, pos) - line_start;
            Position::new(line as u32, col as u32)
        },
        OffsetEncoding::Utf16 => {
            let line_start = char_to_utf16_cu(doc, line_to_char(doc, line));
            let col = char_to_utf16_cu(doc, pos) - line_start;
            Position::new(line as u32, col as u32)
        },
        OffsetEncoding::Utf32 => {
            proof {
                lemma_code_units_bounds(OffsetEncoding::Utf32, text.take(pos as int));
                lemma_code_units_bounds(
                    OffsetEncoding::Utf32,
                    text.take(line_start(text, line_of(text, pos as nat)) as int),
                );
            }
            let line_start = line_to_char(doc, line);
            let col = pos - line_start;
            Position::new(line as u32, col as u32)
        },
    }
}

/// Converts a char index of the document to a position of the protocol,
/// for any index: `None` where the index lies past the end of the
/// document, or where line or column do not fit a position.
pub fn try_pos_to_lsp_pos(doc: &Rope, pos: usize, offset_encoding: OffsetEncoding) -> (r: Option<
    Position,
>)
    ensures
        r is Some <==> position_fits(rope_text(*doc), pos as nat, offset_encoding),
        r is Some ==> r->Some_0 == char_to_position(rope_text(*doc), pos as nat, offset_encoding),
        r is Some ==> r->Some_0.line < line_count(rope_text(*doc)),
{
    let ghost text = rope_text(*doc);
    if pos > len_chars(doc) {
        return None;
    }
    proof {
        lemma_line_holds_char(text, pos as nat);
        lemma_line_of_monotonic(text, pos as nat, pos as nat);
        lemma_offset_monotonic(
            offset_encoding,
            text,
            line_start(text, line_of(text, pos as nat)),
            pos as nat,
        );
    }
    let line = char_to_line(doc, pos);
    let start = line_to_char(doc, line);
    let col = match offset_encoding {
        OffsetEncoding::Utf8 => char_to_byte(doc, pos) - char_to_byte(doc, start),
        OffsetEncoding::Utf16 => char_to_utf16_cu(doc, pos) - char_to_utf16_cu(doc, start),
        OffsetEncoding::Utf32 => {
            proof {
                lemma_code_units_bounds(OffsetEncoding::Utf32, text.take(pos as int));
                lemma_code_units_bounds(OffsetEncoding::Utf32, text.take(start as int));
            }
            pos - start
        },
    };
    if line > u32::MAX as usize || col > u32::MAX as usize {
        return None;
    }
    Some(pos_to_lsp_pos(doc, pos, offset_encoding))
}

/// Converts a selected range of the document to a range of the protocol,
/// from its smaller end to its larger end.
pub fn range_to_lsp_range(doc: &Rope, range: Range, offset_encoding: OffsetEncoding) -> (r:
    lsp::Range)
    requires
        position_fits(rope_text(*doc), range.from() as nat, offset_encoding),
        position_fits(rope_text(*doc), range.to() as nat, offset_encoding),
    ensures
        r.start == char_to_position(rope_text(*doc), range.from() as nat, offset_encoding),
        r.end == char_to_position(rope_text(*doc), range.to() as nat, offset_encoding),
        r.start.line < line_count(rope_text(*doc)),
        r.end.line < line_count(rope_text(*doc)),
{
    let start = pos_to_lsp_pos(doc, range.from(), offset_encoding);
    let end = pos_to_lsp_pos(doc, range.to(), offset_encoding);
    lsp::Range::new(start, end)
}

/// Converts a range of the protocol to a selected range of the document,
/// anchored at its start. The result is `None` exactly when one of the two
/// positions names no char of the document.
pub fn lsp_range_to_range(doc: &Rope, range: lsp::Range, offset_encoding: OffsetEncoding) -> (r:
    Option<Range>)
    ensures
        r is Some <==> position_to_char(rope_text(*doc), range.start, offset_encoding) is Some
            && position_to_char(rope_text(*doc), range.end, offset_encoding) is Some,
        r is Some ==> Some(r->Some_0.anchor as nat) == position_to_char(
            rope_text(*doc),
            range.start,
            offset_encoding,
        ) && Some(r->Some_0.head as nat) == position_to_char(
            rope_text(*doc),
            range.end,
            offset_encoding,
        ),
{
    let start = match lsp_pos_to_pos(doc, range.start, offset_encoding) {
        Some(start) => start,
        None => { return None; },
    };
    let end = match lsp_pos_to_pos(doc, range.end, offset_encoding) {
        Some(end) => end,
        None => { return None; },
    };
    Some(Range::new(start, end))
}

/// Every char index of the text starts at its offset: offsets of chars
/// are char boundaries.
pub proof fn lemma_offsets_are_boundaries(text: Seq<char>, c: nat, enc: OffsetEncoding)
    requires
        c <= text.len(),
    ensures
        on_char_boundary(enc, text, offset_of(enc, text, c)),
        char_at_offset(enc, text, offset_of(enc, text, c)) == c,
{
    lemma_char_at_offset_of(enc, text, c);
}

/// A position on a line of the text names a char index exactly when its
/// offset falls on the start of a char or on the end of the text, and the
/// index lies within the text. It always does so where the encoding
/// counts chars, where `character` is 0, and where `character` reaches or
/// passes the end of the line.
pub proof fn lemma_position_in_bounds(text: Seq<char>, pos: Position, enc: OffsetEncoding)
    requires
        pos.line < line_count(text),
    ensures
        position_to_char(text, pos, enc) is Some <==> on_char_boundary(
            enc,
            text,
            clamped_offset(text, pos, enc),
        ),
        position_to_char(text, pos, enc) is Some ==> position_to_char(text, pos, enc)->Some_0
            <= text.len(),
        enc == OffsetEncoding::Utf32 ==> position_to_char(text, pos, enc) is Some,
        pos.character == 0 ==> position_to_char(text, pos, enc) == Some(
            line_start(text, pos.line as nat),
        ),
        offset_of(enc, text, line_start(text, pos.line as nat)) + pos.character >= offset_of(
            enc,
            text,
            line_end(text, pos.line as nat),
        ) ==> position_to_char(text, pos, enc) == Some(line_end(text, pos.line as nat)),
{
    let l = pos.line as nat;
    let offset = clamped_offset(text, pos, enc);
    lemma_char_at_offset_bound(enc, text, offset);
    lemma_line_end_bounds(text, l);
    lemma_offset_monotonic(enc, text, line_start(text, l), line_end(text, l));
    lemma_offset_monotonic(enc, text, line_end(text, l), text.len());
    lemma_offset_of_len(enc, text);
    lemma_offsets_are_boundaries(text, line_start(text, l), enc);
    lemma_offsets_are_boundaries(text, line_end(text, l), enc);
    if enc == OffsetEncoding::Utf32 {
        lemma_code_units_bounds(enc, text);
        lemma_code_units_bounds(enc, text.take(line_end(text, l) as int));
        lemma_offsets_are_boundaries(text, offset, enc);
        lemma_code_units_bounds(enc, text.take(offset as int));
    }
}

/// Where a position on a line of the text names no char, its offset falls
/// inside a char: that char starts before the offset, and the next char
/// behind it.
pub proof fn lemma_position_inside_char(text: Seq<char>, pos: Position, enc: OffsetEncoding)
    requires
        pos.line < line_count(text),
        position_to_char(text, pos, enc) is None,
    ensures
        ({
            let offset = clamped_offset(text, pos, enc);
            let c = char_at_offset(enc, text, offset);
            c < text.len() && offset_of(enc, text, c) < offset < offset_of(enc, text, c + 1)
        }),
{
    let l = pos.line as nat;
    let offset = clamped_offset(text, pos, enc);
    lemma_line_end_bounds(text, l);
    lemma_offset_monotonic(enc, text, line_end(text, l), text.len());
    lemma_offset_of_len(enc, text);
    lemma_char_at_offset_bound(enc, text, offset);
    if offset < code_units(enc, text) {
        lemma_char_at_offset_holds(enc, text, offset);
    }
}

/// A char index, written as a position and read back in the same encoding,
/// is the same char index. This holds of every index up to the length of
/// the text but of one between the two chars of a CRLF terminator, which no
/// position names.
pub proof fn lemma_position_round_trip(text: Seq<char>, c: nat, enc: OffsetEncoding)
    requires
        position_fits(text, c, enc),
        !inside_crlf(text, c),
    ensures
        position_to_char(text, char_to_position(text, c, enc), enc) == Some(c),
{
    let l = line_of(text, c);
    lemma_line_of_monotonic(text, c, c);
    lemma_char_within_line(text, c);
    lemma_line_end_bounds(text, l);
    lemma_offset_monotonic(enc, text, line_start(text, l), c);
    lemma_offset_monotonic(enc, text, c, line_end(text, l));
    lemma_char_at_offset_of(enc, text, c);
}

} // verus!
