use helix_lsp::lsp::Position;
use helix_lsp::util::{
    lsp_pos_to_pos, lsp_range_to_range, pos_to_lsp_pos, range_to_lsp_range, try_pos_to_lsp_pos,
};
use helix_lsp::OffsetEncoding;
use ropey::Rope;

fn check(doc: &str, line: u32, character: u32, want: Option<usize>) {
    let doc = Rope::from(doc);
    let pos = Position::new(line, character);
    assert_eq!(want, lsp_pos_to_pos(&doc, pos, OffsetEncoding::Utf16));
    assert_eq!(want, lsp_pos_to_pos(&doc, pos, OffsetEncoding::Utf8));
}

#[test]
fn converts_lsp_pos_to_pos() {
    check("", 0, 0, Some(0));
    check("", 0, 1, Some(0));
    check("", 1, 0, None);
    check("\n\n", 0, 0, Some(0));
    check("\n\n", 1, 0, Some(1));
    check("\n\n", 1, 1, Some(1));
    check("\n\n", 2, 0, Some(2));
    check("\n\n", 3, 0, None);
    check("test\n\n\n\ncase", 4, 3, Some(11));
    check("test\n\n\n\ncase", 4, 4, Some(12));
    check("test\n\n\n\ncase", 4, 5, Some(12));
    check("", u32::MAX, u32::MAX, None);
}

#[test]
fn round_trip_in_every_encoding() {
    let doc = Rope::from("a\u{e9}\u{20ac}\u{1f384}b\n\u{1f1fa}\u{1f1f8}x\r\nlast");
    for enc in [OffsetEncoding::Utf8, OffsetEncoding::Utf16, OffsetEncoding::Utf32] {
        for c in 0..=doc.len_chars() {
            let inside_crlf = c > 0 && c < doc.len_chars() && doc.char(c - 1) == '\r' && doc.char(c) == '\n';
            let pos = pos_to_lsp_pos(&doc, c, enc);
            let back = lsp_pos_to_pos(&doc, pos, enc);
            if inside_crlf {
                assert_eq!(back, Some(c - 1));
            } else {
                assert_eq!(back, Some(c));
            }
        }
    }
}

#[test]
fn empty_document_in_every_encoding() {
    let doc = Rope::from("");
    for enc in [OffsetEncoding::Utf8, OffsetEncoding::Utf16, OffsetEncoding::Utf32] {
        assert_eq!(lsp_pos_to_pos(&doc, Position::new(0, 0), enc), Some(0));
        assert_eq!(lsp_pos_to_pos(&doc, Position::new(0, 1), enc), Some(0));
        assert_eq!(lsp_pos_to_pos(&doc, Position::new(1, 0), enc), None);
        assert_eq!(lsp_pos_to_pos(&doc, Position::new(u32::MAX, u32::MAX), enc), None);
        assert_eq!(pos_to_lsp_pos(&doc, 0, enc), Position::new(0, 0));
    }
}

#[test]
fn clamping_past_the_end_of_a_line() {
    let doc = Rope::from("test\n\n\n\ncase");
    assert_eq!(lsp_pos_to_pos(&doc, Position::new(4, 3), OffsetEncoding::Utf8), Some(11));
    assert_eq!(lsp_pos_to_pos(&doc, Position::new(4, 4), OffsetEncoding::Utf8), Some(12));
    assert_eq!(lsp_pos_to_pos(&doc, Position::new(4, 5), OffsetEncoding::Utf8), Some(12));
    assert_eq!(lsp_pos_to_pos(&doc, Position::new(5, 0), OffsetEncoding::Utf8), None);
    // the end of a line lies before its terminator
    assert_eq!(lsp_pos_to_pos(&doc, Position::new(0, 9), OffsetEncoding::Utf32), Some(4));
    assert_eq!(lsp_pos_to_pos(&doc, Position::new(1, 9), OffsetEncoding::Utf16), Some(5));
    assert_eq!(
        lsp_pos_to_pos(&doc, Position::new(0, u32::MAX), OffsetEncoding::Utf8),
        Some(4)
    );
}

#[test]
fn no_position_between_carriage_return_and_line_feed() {
    let doc = Rope::from("ab\r\ncd");
    for enc in [OffsetEncoding::Utf8, OffsetEncoding::Utf16, OffsetEncoding::Utf32] {
        assert_eq!(lsp_pos_to_pos(&doc, Position::new(0, 2), enc), Some(2));
        assert_eq!(lsp_pos_to_pos(&doc, Position::new(0, 3), enc), Some(2));
        assert_eq!(lsp_pos_to_pos(&doc, Position::new(0, 4), enc), Some(2));
        assert_eq!(lsp_pos_to_pos(&doc, Position::new(1, 0), enc), Some(4));
        assert_eq!(pos_to_lsp_pos(&doc, 3, enc), Position::new(0, 3));
        assert_eq!(pos_to_lsp_pos(&doc, 4, enc), Position::new(1, 0));
    }
    // a lone carriage return ends no line
    let doc = Rope::from("ab\rcd");
    assert_eq!(lsp_pos_to_pos(&doc, Position::new(0, 4), OffsetEncoding::Utf8), Some(4));
    assert_eq!(lsp_pos_to_pos(&doc, Position::new(1, 0), OffsetEncoding::Utf8), None);
}

#[test]
fn columns_count_code_units() {
    // 'a' takes 1, 1, 1 units; 'é' 2, 1, 1; '€' 3, 1, 1; '🎄' 4, 2, 1
    let doc = Rope::from("a\u{e9}\u{20ac}\u{1f384}b");
    assert_eq!(pos_to_lsp_pos(&doc, 4, OffsetEncoding::Utf8), Position::new(0, 10));
    assert_eq!(pos_to_lsp_pos(&doc, 4, OffsetEncoding::Utf16), Position::new(0, 5));
    assert_eq!(pos_to_lsp_pos(&doc, 4, OffsetEncoding::Utf32), Position::new(0, 4));
    assert_eq!(lsp_pos_to_pos(&doc, Position::new(0, 10), OffsetEncoding::Utf8), Some(4));
    assert_eq!(lsp_pos_to_pos(&doc, Position::new(0, 5), OffsetEncoding::Utf16), Some(4));
    assert_eq!(lsp_pos_to_pos(&doc, Position::new(0, 4), OffsetEncoding::Utf32), Some(4));
    // an offset inside a char names nothing
    assert_eq!(lsp_pos_to_pos(&doc, Position::new(0, 2), OffsetEncoding::Utf8), None);
    assert_eq!(lsp_pos_to_pos(&doc, Position::new(0, 7), OffsetEncoding::Utf8), None);
    assert_eq!(lsp_pos_to_pos(&doc, Position::new(0, 4), OffsetEncoding::Utf16), None);
    assert_eq!(lsp_pos_to_pos(&doc, Position::new(0, 1), OffsetEncoding::Utf8), Some(1));
    assert_eq!(lsp_pos_to_pos(&doc, Position::new(0, 3), OffsetEncoding::Utf8), Some(2));
    assert_eq!(lsp_pos_to_pos(&doc, Position::new(0, 6), OffsetEncoding::Utf8), Some(3));
    assert_eq!(lsp_pos_to_pos(&doc, Position::new(0, 3), OffsetEncoding::Utf16), Some(3));
}

#[test]
fn positions_on_later_lines() {
    let doc = Rope::from("x\n\u{1f384}y\nz");
    assert_eq!(pos_to_lsp_pos(&doc, 3, OffsetEncoding::Utf8), Position::new(1, 4));
    assert_eq!(pos_to_lsp_pos(&doc, 3, OffsetEncoding::Utf16), Position::new(1, 2));
    assert_eq!(pos_to_lsp_pos(&doc, 3, OffsetEncoding::Utf32), Position::new(1, 1));
    assert_eq!(pos_to_lsp_pos(&doc, 6, OffsetEncoding::Utf8), Position::new(2, 1));
    assert_eq!(lsp_pos_to_pos(&doc, Position::new(2, 1), OffsetEncoding::Utf16), Some(6));
}

#[test]
fn checked_conversion_refuses_what_lies_past_the_end() {
    let doc = Rope::from("ab\ncd");
    assert_eq!(
        try_pos_to_lsp_pos(&doc, 5, OffsetEncoding::Utf16),
        Some(Position::new(1, 2))
    );
    assert_eq!(try_pos_to_lsp_pos(&doc, 6, OffsetEncoding::Utf16), None);
    assert_eq!(try_pos_to_lsp_pos(&doc, usize::MAX, OffsetEncoding::Utf8), None);
}

#[test]
fn ranges_convert_end_by_end() {
    let doc = Rope::from("ab\ncd");
    let backward = helix_lsp::selection::Range::new(4, 1);
    assert_eq!(
        range_to_lsp_range(&doc, backward, OffsetEncoding::Utf8),
        helix_lsp::lsp::Range::new(Position::new(0, 1), Position::new(1, 1))
    );
    let range = helix_lsp::lsp::Range::new(Position::new(1, 1), Position::new(0, 1));
    assert_eq!(
        lsp_range_to_range(&doc, range, OffsetEncoding::Utf8),
        Some(helix_lsp::selection::Range::new(4, 1))
    );
    let off = helix_lsp::lsp::Range::new(Position::new(0, 0), Position::new(2, 0));
    assert_eq!(lsp_range_to_range(&doc, off, OffsetEncoding::Utf8), None);
    let off = helix_lsp::lsp::Range::new(Position::new(9, 0), Position::new(0, 0));
    assert_eq!(lsp_range_to_range(&doc, off, OffsetEncoding::Utf8), None);
}

#[test]
fn default_encoding_is_utf16() {
    assert_eq!(OffsetEncoding::default(), OffsetEncoding::Utf16);
}

#[test]
fn middle_of_a_surrogate_pair_names_nothing() {
    let doc = Rope::from("\u{1f384}");
    assert_eq!(lsp_pos_to_pos(&doc, Position::new(0, 0), OffsetEncoding::Utf16), Some(0));
    assert_eq!(lsp_pos_to_pos(&doc, Position::new(0, 1), OffsetEncoding::Utf16), None);
    assert_eq!(lsp_pos_to_pos(&doc, Position::new(0, 2), OffsetEncoding::Utf16), Some(1));
    assert_eq!(lsp_pos_to_pos(&doc, Position::new(0, 3), OffsetEncoding::Utf16), Some(1));
    for character in 1..4 {
        assert_eq!(
            lsp_pos_to_pos(&doc, Position::new(0, character), OffsetEncoding::Utf8),
            None
        );
    }
    assert_eq!(lsp_pos_to_pos(&doc, Position::new(0, 4), OffsetEncoding::Utf8), Some(1));
    assert_eq!(lsp_pos_to_pos(&doc, Position::new(0, 1), OffsetEncoding::Utf32), Some(1));
    let range = helix_lsp::lsp::Range::new(Position::new(0, 0), Position::new(0, 1));
    assert_eq!(lsp_range_to_range(&doc, range, OffsetEncoding::Utf16), None);
}

#[test]
fn encoding_by_the_name_of_the_protocol() {
    assert_eq!(OffsetEncoding::from_name(Some("utf-8")), OffsetEncoding::Utf8);
    assert_eq!(OffsetEncoding::from_name(Some("utf-32")), OffsetEncoding::Utf32);
    assert_eq!(OffsetEncoding::from_name(Some("utf-16")), OffsetEncoding::Utf16);
    assert_eq!(OffsetEncoding::from_name(Some("UTF-8")), OffsetEncoding::Utf16);
    assert_eq!(OffsetEncoding::from_name(Some("")), OffsetEncoding::Utf16);
    assert_eq!(OffsetEncoding::from_name(None), OffsetEncoding::Utf16);
    assert_eq!(
        OffsetEncoding::from_name(Some(lsp_types::PositionEncodingKind::UTF8.as_str())),
        OffsetEncoding::Utf8
    );
    assert_eq!(
        OffsetEncoding::from_name(Some(lsp_types::PositionEncodingKind::UTF32.as_str())),
        OffsetEncoding::Utf32
    );
}
