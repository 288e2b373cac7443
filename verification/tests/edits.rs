use helix_lsp::diff::diff;
use helix_lsp::lsp::{Position, Range, TextEdit};
use helix_lsp::transaction::{Change, Transaction};
use helix_lsp::util::generate_transaction_from_edits;
use helix_lsp::OffsetEncoding;
use ropey::Rope;

fn edit(start: (u32, u32), end: (u32, u32), text: &str) -> TextEdit {
    TextEdit {
        range: Range {
            start: Position {
                line: start.0,
                character: start.1,
            },
            end: Position {
                line: end.0,
                character: end.1,
            },
        },
        new_text: text.to_string(),
    }
}

#[test]
fn emoji_format_gh_4791() {
    let edits = vec![
        TextEdit {
            range: Range {
                start: Position {
                    line: 0,
                    character: 1,
                },
                end: Position {
                    line: 1,
                    character: 0,
                },
            },
            new_text: "\n  ".to_string(),
        },
        TextEdit {
            range: Range {
                start: Position {
                    line: 1,
                    character: 7,
                },
                end: Position {
                    line: 2,
                    character: 0,
                },
            },
            new_text: "\n  ".to_string(),
        },
    ];

    let mut source = Rope::from_str("[\n\"🇺🇸\",\n\"🎄\",\n]");

    let transaction = generate_transaction_from_edits(&source, edits, OffsetEncoding::Utf8);
    assert!(transaction.apply(&mut source));
}

#[test]
fn emoji_edits_give_these_changes() {
    let mut source = Rope::from_str("[\n\"🇺🇸\",\n\"🎄\",\n]");
    let edits = vec![edit((0, 1), (1, 0), "\n  "), edit((1, 7), (2, 0), "\n  ")];
    let transaction = generate_transaction_from_edits(&source, edits, OffsetEncoding::Utf8);
    // the second edit starts inside a char: it names no place, and does nothing
    assert_eq!(
        transaction.changes,
        vec![
            Change::new(1, 2, Some("\n  ".to_string())),
            Change::new(0, 0, None),
        ]
    );
    assert_eq!(transaction.len, 14);
    assert_eq!(transaction.selection, None);
    assert!(transaction.apply(&mut source));
    assert_eq!(source.to_string(), "[\n  \"🇺🇸\",\n\"🎄\",\n]");
}

#[test]
fn reverse_ordered_edits_are_sorted() {
    let doc = Rope::from_str("one\ntwo\nthree\n");
    let forward = vec![
        edit((0, 0), (0, 3), "1"),
        edit((1, 0), (1, 3), "2"),
        edit((2, 0), (2, 5), "3"),
    ];
    let backward = vec![
        edit((2, 0), (2, 5), "3"),
        edit((1, 0), (1, 3), "2"),
        edit((0, 0), (0, 3), "1"),
    ];
    let a = generate_transaction_from_edits(&doc, forward, OffsetEncoding::Utf16);
    let b = generate_transaction_from_edits(&doc, backward, OffsetEncoding::Utf16);
    assert_eq!(a, b);
    let mut left = doc.clone();
    let mut right = doc.clone();
    assert!(a.apply(&mut left));
    assert!(b.apply(&mut right));
    assert_eq!(left.to_string(), "1\n2\n3\n");
    assert_eq!(right.to_string(), "1\n2\n3\n");
}

#[test]
fn edits_with_one_start_keep_their_order() {
    let mut doc = Rope::from_str("ab");
    let edits = vec![
        edit((0, 1), (0, 1), "y"),
        edit((0, 0), (0, 0), "x"),
        edit((0, 1), (0, 1), "z"),
    ];
    let t = generate_transaction_from_edits(&doc, edits, OffsetEncoding::Utf8);
    assert_eq!(
        t.changes,
        vec![
            Change::new(0, 0, Some("x".to_string())),
            Change::new(1, 1, Some("y".to_string())),
            Change::new(1, 1, Some("z".to_string())),
        ]
    );
    assert!(t.apply(&mut doc));
    assert_eq!(doc.to_string(), "xayzb");
}

#[test]
fn full_document_replacement_is_a_diff() {
    let mut doc = Rope::from_str("fn main() {}\nlet x = 1;\n");
    let edits = vec![edit((0, 0), (2, 0), "fn main() {}\nlet x = 2;\n")];
    let t = generate_transaction_from_edits(&doc, edits, OffsetEncoding::Utf16);
    assert_eq!(t.changes, vec![Change::new(21, 22, Some("2".to_string()))]);
    assert_ne!(
        t.changes,
        vec![Change::new(
            0,
            24,
            Some("fn main() {}\nlet x = 2;\n".to_string())
        )]
    );
    assert!(t.apply(&mut doc));
    assert_eq!(doc.to_string(), "fn main() {}\nlet x = 2;\n");
}

#[test]
fn two_edits_are_never_a_diff() {
    let doc = Rope::from_str("abc");
    let edits = vec![edit((0, 0), (0, 3), "x"), edit((0, 3), (0, 3), "y")];
    let t = generate_transaction_from_edits(&doc, edits, OffsetEncoding::Utf8);
    assert_eq!(
        t.changes,
        vec![
            Change::new(0, 3, Some("x".to_string())),
            Change::new(3, 3, Some("y".to_string())),
        ]
    );
}

#[test]
fn edit_on_a_missing_line_does_nothing() {
    let mut doc = Rope::from_str("abc\n");
    let edits = vec![edit((0, 1), (0, 2), "X"), edit((7, 0), (7, 1), "lost")];
    let t = generate_transaction_from_edits(&doc, edits, OffsetEncoding::Utf8);
    assert_eq!(
        t.changes,
        vec![
            Change::new(1, 2, Some("X".to_string())),
            Change::new(0, 0, None),
        ]
    );
    assert!(t.apply(&mut doc));
    assert_eq!(doc.to_string(), "aXc\n");
}

#[test]
fn empty_text_is_no_replacement() {
    let mut doc = Rope::from_str("abc");
    let t = generate_transaction_from_edits(
        &doc,
        vec![edit((0, 1), (0, 2), "")],
        OffsetEncoding::Utf8,
    );
    assert_eq!(t.changes, vec![Change::new(1, 2, None)]);
    assert!(t.apply(&mut doc));
    assert_eq!(doc.to_string(), "ac");
}

#[test]
fn overlapping_changes_do_not_apply() {
    let mut doc = Rope::from_str("abcdef");
    let t = Transaction::change(
        6,
        vec![
            Change::new(0, 4, Some("x".to_string())),
            Change::new(2, 5, None),
        ],
    );
    assert!(!t.apply(&mut doc));
    assert_eq!(doc.to_string(), "abcdef");
}

#[test]
fn transaction_for_another_length_does_not_apply() {
    let mut doc = Rope::from_str("abcdef");
    let t = Transaction::change(5, vec![Change::new(0, 1, None)]);
    assert!(!t.apply(&mut doc));
    assert_eq!(doc.to_string(), "abcdef");
}

#[test]
fn batch_equals_changes_in_turn() {
    let mut doc = Rope::from_str("hello wide world");
    let t = Transaction::change(
        16,
        vec![
            Change::new(0, 5, Some("goodbye".to_string())),
            Change::new(6, 11, None),
            Change::new(16, 16, Some("!".to_string())),
        ],
    );
    assert!(t.apply(&mut doc));
    // one after the other, each moved by what the ones before it did
    let mut turn = Rope::from_str("hello wide world");
    turn.remove(0..5);
    turn.insert(0, "goodbye");
    turn.remove(8..13);
    turn.insert(13, "!");
    assert_eq!(doc.to_string(), "goodbye world!");
    assert_eq!(doc.to_string(), turn.to_string());
}

#[test]
fn diff_leaves_the_common_ends_alone() {
    let doc = Rope::from_str("fn main() {}\nlet x = 1;\n");
    assert_eq!(
        diff(&doc, "fn main() {}\nlet x = 2;\n"),
        vec![Change::new(21, 22, Some("2".to_string()))]
    );
    assert_eq!(diff(&doc, "fn main() {}\nlet x = 1;\n"), Vec::new());
    assert_eq!(diff(&doc, ""), vec![Change::new(0, 24, None)]);
    assert_eq!(
        diff(&Rope::new(), "abc"),
        vec![Change::new(0, 0, Some("abc".to_string()))]
    );
    assert_eq!(diff(&Rope::new(), ""), Vec::new());
    // what the two share at the start is not counted again at the end
    assert_eq!(diff(&Rope::from_str("aa"), "a"), vec![Change::new(1, 2, None)]);
    assert_eq!(
        diff(&Rope::from_str("a"), "aa"),
        vec![Change::new(1, 1, Some("a".to_string()))]
    );
    assert_eq!(
        diff(&Rope::from_str("x\u{1f384}z"), "x\u{1f1fa}\u{1f1f8}z"),
        vec![Change::new(1, 2, Some("\u{1f1fa}\u{1f1f8}".to_string()))]
    );
}

#[test]
fn diff_keeps_what_the_texts_share_in_between() {
    let mut doc = Rope::from_str("a\nb\nc");
    let changes = diff(&doc, "x\nb\ny");
    // the line that both texts hold stays where it is
    assert_eq!(
        changes,
        vec![
            Change::new(0, 1, Some("x".to_string())),
            Change::new(4, 5, Some("y".to_string())),
        ]
    );
    let t = generate_transaction_from_edits(
        &doc,
        vec![edit((0, 0), (2, 1), "x\nb\ny")],
        OffsetEncoding::Utf8,
    );
    assert_eq!(t.changes, changes);
    assert!(t.apply(&mut doc));
    assert_eq!(doc.to_string(), "x\nb\ny");
}

fn lcs(a: &[char], b: &[char]) -> usize {
    if a.is_empty() || b.is_empty() {
        0
    } else if a[a.len() - 1] == b[b.len() - 1] {
        lcs(&a[..a.len() - 1], &b[..b.len() - 1]) + 1
    } else {
        lcs(&a[..a.len() - 1], b).max(lcs(a, &b[..b.len() - 1]))
    }
}

#[test]
fn diff_gives_the_new_text_and_keeps_as_much_as_can_be_kept() {
    let texts = [
        "", "a", "ab", "ba", "abc", "acb", "xaxbxc", "abcabc", "cab\n", "\u{1f384}b\u{e9}",
        "line\nline\n", "lane\nline\nlone", "abba",
    ];
    for old in texts {
        for new in texts {
            let mut doc = Rope::from_str(old);
            let changes = diff(&doc, new);
            let removed: usize = changes.iter().map(|c| c.end - c.start).sum();
            let a: Vec<char> = old.chars().collect();
            let b: Vec<char> = new.chars().collect();
            assert_eq!(a.len() - removed, lcs(&a, &b), "{:?} {:?}", old, new);
            for pair in changes.windows(2) {
                assert!(pair[0].end <= pair[1].start);
            }
            let shared = a.iter().zip(b.iter()).take_while(|(x, y)| x == y).count();
            assert!(changes.iter().all(|c| c.start >= shared));
            let t = Transaction::change(a.len(), changes);
            assert!(t.apply(&mut doc));
            assert_eq!(doc.to_string(), new, "{:?} {:?}", old, new);
        }
    }
}

#[test]
fn diff_is_carried_out_within_the_document() {
    let mut doc = Rope::from_str("one\ntwo\nthree\n");
    let t = generate_transaction_from_edits(
        &doc,
        vec![edit((0, 0), (3, 0), "one\n2\nthree\n")],
        OffsetEncoding::Utf8,
    );
    assert_eq!(t.changes, vec![Change::new(4, 7, Some("2".to_string()))]);
    assert!(t.apply(&mut doc));
    assert_eq!(doc.to_string(), "one\n2\nthree\n");
}

#[test]
fn whole_document_edit_keeps_the_unchanged_first_line() {
    let mut doc = Rope::from_str("keep\nold");
    let t = generate_transaction_from_edits(
        &doc,
        vec![edit((0, 0), (1, 3), "keep\nnew")],
        OffsetEncoding::Utf8,
    );
    // nothing before char 5 is touched, so char 2 keeps its place
    assert_eq!(t.changes, vec![Change::new(5, 8, Some("new".to_string()))]);
    assert!(t.apply(&mut doc));
    assert_eq!(doc.to_string(), "keep\nnew");
}

#[test]
fn whole_document_edit_to_the_same_text_changes_nothing() {
    let mut doc = Rope::from_str("same\n");
    let t = generate_transaction_from_edits(
        &doc,
        vec![edit((0, 0), (1, 0), "same\n")],
        OffsetEncoding::Utf16,
    );
    assert_eq!(t.changes, Vec::new());
    assert!(t.apply(&mut doc));
    assert_eq!(doc.to_string(), "same\n");
}

#[test]
fn edit_that_ends_inside_a_char_does_nothing() {
    let mut doc = Rope::from_str("a\u{1f384}b");
    let t = generate_transaction_from_edits(
        &doc,
        vec![edit((0, 0), (0, 2), "x")],
        OffsetEncoding::Utf16,
    );
    assert_eq!(t.changes, vec![Change::new(0, 0, None)]);
    assert!(t.apply(&mut doc));
    assert_eq!(doc.to_string(), "a\u{1f384}b");
}
