use helix_lsp::lsp::Position;
use helix_lsp::util::{lsp_pos_to_pos, pos_to_lsp_pos};
use helix_lsp::OffsetEncoding;
use ropey::Rope;

const ENCODINGS: [OffsetEncoding; 3] = [
    OffsetEncoding::Utf8,
    OffsetEncoding::Utf16,
    OffsetEncoding::Utf32,
];

fn width(enc: OffsetEncoding, c: char) -> usize {
    match enc {
        OffsetEncoding::Utf8 => c.len_utf8(),
        OffsetEncoding::Utf16 => c.len_utf16(),
        OffsetEncoding::Utf32 => 1,
    }
}

/// The text on paper: for every line its first char and the end of what
/// it holds, lines cut at line feeds alone.
fn lines(text: &[char]) -> Vec<(usize, usize)> {
    let mut lines = Vec::new();
    let mut start = 0;
    for (i, c) in text.iter().enumerate() {
        if *c == '\n' {
            let end = if i > start && text[i - 1] == '\r' { i - 1 } else { i };
            lines.push((start, end));
            start = i + 1;
        }
    }
    lines.push((start, text.len()));
    lines
}

fn offset(enc: OffsetEncoding, text: &[char], c: usize) -> usize {
    text[..c].iter().map(|c| width(enc, *c)).sum()
}

fn expected(enc: OffsetEncoding, text: &[char], line: usize, character: usize) -> Option<usize> {
    let (start, end) = *lines(text).get(line)?;
    let target = (offset(enc, text, start) + character).min(offset(enc, text, end));
    let mut c = 0;
    let mut units = 0;
    while c < text.len() && units + width(enc, text[c]) <= target {
        units += width(enc, text[c]);
        c += 1;
    }
    // an offset inside a char names nothing
    if units != target {
        return None;
    }
    Some(c)
}

fn check(text: &str, max_character: u32) {
    let doc = Rope::from_str(text);
    let chars: Vec<char> = text.chars().collect();
    let line_count = lines(&chars).len() as u32;
    for enc in ENCODINGS {
        for line in 0..line_count + 2 {
            for character in 0..max_character {
                assert_eq!(
                    lsp_pos_to_pos(&doc, Position::new(line, character), enc),
                    expected(enc, &chars, line as usize, character as usize),
                    "{:?} {:?} {} {}",
                    text,
                    enc,
                    line,
                    character
                );
            }
        }
        let all = lines(&chars);
        for c in 0..=chars.len() {
            let line = all.iter().rposition(|(start, _)| *start <= c).unwrap();
            let column = offset(enc, &chars, c) - offset(enc, &chars, all[line].0);
            let position = pos_to_lsp_pos(&doc, c, enc);
            assert_eq!(position, Position::new(line as u32, column as u32));
            let inside_crlf = c > 0 && c < chars.len() && chars[c - 1] == '\r' && chars[c] == '\n';
            if !inside_crlf {
                assert_eq!(lsp_pos_to_pos(&doc, position, enc), Some(c));
            }
        }
    }
}

#[test]
fn positions_agree_with_the_text_on_paper() {
    for text in [
        "",
        "\n",
        "\r\n",
        "\r",
        "\n\r\n\r",
        "a",
        "ab\ncd",
        "ab\r\ncd\r\n",
        "\u{e9}\u{20ac}\n\u{1f384}\u{1f1fa}\u{1f1f8}\r\n\r\r\nx",
        "tab\there\u{2028}and a separator\u{85}and next line\u{b}\u{c}",
        "\u{1f384}",
        "\n\n\n",
    ] {
        check(text, 24);
    }
}

#[test]
fn positions_agree_in_a_long_text() {
    // long enough for the rope to keep it in many pieces
    let pattern = ["a", "\u{e9}", "\u{20ac}", "\u{1f384}", "\r\n", "b", "\n", "\r", "cd", "\u{1f1fa}\u{1f1f8}"];
    let mut text = String::new();
    let mut state: u32 = 7;
    while text.len() < 6000 {
        state = state.wrapping_mul(1103515245).wrapping_add(12345);
        text.push_str(pattern[(state >> 16) as usize % pattern.len()]);
    }
    check(&text, 12);
}
