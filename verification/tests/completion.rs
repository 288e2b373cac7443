use helix_lsp::selection::{Range, Selection};
use helix_lsp::snippet::{render, Snippet, SnippetElement};
use helix_lsp::transaction::Change;
use helix_lsp::util::{
    generate_transaction_from_completion_edit, generate_transaction_from_snippet,
    try_generate_transaction_from_completion_edit, try_generate_transaction_from_snippet,
};
use ropey::Rope;

fn text(s: &str) -> SnippetElement {
    SnippetElement::Text(s.to_string())
}

#[test]
fn cursor_of_a_forward_range_is_the_grapheme_before_its_head() {
    let doc = Rope::from_str("a🇺🇸b");
    assert_eq!(Range::new(0, 3).cursor(&doc), 1);
    assert_eq!(Range::new(0, 4).cursor(&doc), 3);
    assert_eq!(Range::new(0, 1).cursor(&doc), 0);
    assert_eq!(Range::new(3, 3).cursor(&doc), 3);
    assert_eq!(Range::new(4, 2).cursor(&doc), 2);
    assert_eq!(Range::point(9).cursor(&doc), 9);
}

#[test]
fn completion_replaces_around_every_cursor() {
    let mut doc = Rope::from_str("foo.ba\nfoo.ba\n");
    let selection = Selection::new(vec![Range::point(6), Range::point(13)], 0);
    let t = generate_transaction_from_completion_edit(&doc, &selection, -2, 0, "bar".to_string());
    assert_eq!(
        t.changes,
        vec![
            Change::new(4, 6, Some("bar".to_string())),
            Change::new(11, 13, Some("bar".to_string())),
        ]
    );
    assert_eq!(t.selection, None);
    assert!(t.apply(&mut doc));
    assert_eq!(doc.to_string(), "foo.bar\nfoo.bar\n");
}

#[test]
fn completion_with_empty_text_only_deletes() {
    let doc = Rope::from_str("abcdef");
    let selection = Selection::single(2, 3);
    let t = generate_transaction_from_completion_edit(&doc, &selection, -1, 2, String::new());
    assert_eq!(t.changes, vec![Change::new(1, 4, None)]);
}

#[test]
fn completion_that_does_not_fit_is_refused() {
    let doc = Rope::from_str("abc");
    let selection = Selection::point(1);
    assert_eq!(
        try_generate_transaction_from_completion_edit(&doc, &selection, -2, 0, "x".to_string()),
        None
    );
    assert_eq!(
        try_generate_transaction_from_completion_edit(&doc, &Selection::single(0, 9), 0, 0, "x".to_string()),
        None
    );
    assert_eq!(
        try_generate_transaction_from_completion_edit(&doc, &selection, i128::MAX, 0, "x".to_string()),
        None
    );
    let t = try_generate_transaction_from_completion_edit(&doc, &selection, -1, 1, "x".to_string());
    assert_eq!(
        t.map(|t| t.changes),
        Some(vec![Change::new(0, 2, Some("x".to_string()))])
    );
}

#[test]
fn render_text_and_tabstops() {
    let snippet = Snippet {
        elements: vec![
            text("for "),
            SnippetElement::Placeholder {
                tabstop: 1,
                value: vec![text("item")],
            },
            text(" in "),
            SnippetElement::Placeholder {
                tabstop: 2,
                value: vec![text("list")],
            },
            text(" {\n"),
            SnippetElement::Tabstop { tabstop: 0 },
            text("\n}"),
            SnippetElement::Tabstop { tabstop: 1 },
        ],
    };
    let (rendered, tabstops) = render(&snippet, "\r\n  ", true);
    assert_eq!(rendered, "for item in list {\r\n  \r\n  }");
    assert_eq!(
        tabstops,
        vec![vec![(4, 8), (27, 27)], vec![(12, 16)], vec![(22, 22)]]
    );
    let (rendered, tabstops) = render(&snippet, "\n", false);
    assert_eq!(rendered, "for  in  {\n\n}");
    assert_eq!(
        tabstops,
        vec![vec![(4, 4), (13, 13)], vec![(8, 8)], vec![(11, 11)]]
    );
}

#[test]
fn render_nested_placeholders_variables_and_choices() {
    let snippet = Snippet {
        elements: vec![
            SnippetElement::Placeholder {
                tabstop: 2,
                value: vec![
                    text("a"),
                    SnippetElement::Placeholder {
                        tabstop: 1,
                        value: vec![text("bc")],
                    },
                ],
            },
            SnippetElement::Variable {
                name: "TM_FILENAME".to_string(),
                default: Some("file".to_string()),
            },
            SnippetElement::Variable {
                name: "TM_LINE".to_string(),
                default: None,
            },
            SnippetElement::Choice {
                tabstop: 3,
                choices: vec!["x".to_string(), "y".to_string()],
            },
        ],
    };
    let (rendered, tabstops) = render(&snippet, "\n", true);
    assert_eq!(rendered, "abcfile");
    assert_eq!(tabstops, vec![vec![(1, 3)], vec![(0, 3)], vec![(7, 7)]]);
}

#[test]
fn render_without_tabstops() {
    let snippet = Snippet {
        elements: vec![text("plain")],
    };
    let (rendered, tabstops) = render(&snippet, "\n", true);
    assert_eq!(rendered, "plain");
    assert_eq!(tabstops, Vec::<Vec<(usize, usize)>>::new());
}

#[test]
fn snippet_keeps_indentation_and_selects_first_tabstop() {
    let mut doc = Rope::from_str("fn f() {\n    lo\n}\n");
    // the cursor stands behind "lo"
    let selection = Selection::point(15);
    let snippet = Snippet {
        elements: vec![
            text("loop {\n    "),
            SnippetElement::Placeholder {
                tabstop: 1,
                value: vec![text("body")],
            },
            text("\n}"),
            SnippetElement::Tabstop { tabstop: 0 },
        ],
    };
    let t = generate_transaction_from_snippet(&doc, &selection, -2, 0, snippet, "\n", true);
    assert_eq!(
        t.changes,
        vec![Change::new(
            13,
            15,
            Some("loop {\n        body\n    }".to_string())
        )]
    );
    assert_eq!(t.selection, Some(Selection::new(vec![Range::new(28, 32)], 0)));
    assert!(t.apply(&mut doc));
    assert_eq!(doc.to_string(), "fn f() {\n    loop {\n        body\n    }\n}\n");
    assert_eq!(doc.slice(28..32).to_string(), "body");
}

#[test]
fn snippet_at_several_cursors() {
    let mut doc = Rope::from_str("a\nb\n");
    let selection = Selection::new(vec![Range::point(1), Range::point(3)], 1);
    let snippet = Snippet {
        elements: vec![
            text("("),
            SnippetElement::Tabstop { tabstop: 1 },
            text(","),
            SnippetElement::Tabstop { tabstop: 1 },
            text(")"),
        ],
    };
    let t = generate_transaction_from_snippet(&doc, &selection, 0, 0, snippet, "\n", true);
    assert_eq!(
        t.changes,
        vec![
            Change::new(1, 1, Some("(,)".to_string())),
            Change::new(3, 3, Some("(,)".to_string())),
        ]
    );
    assert_eq!(
        t.selection,
        Some(Selection::new(
            vec![
                Range::new(2, 2),
                Range::new(3, 3),
                Range::new(7, 7),
                Range::new(8, 8)
            ],
            2
        ))
    );
    assert!(t.apply(&mut doc));
    assert_eq!(doc.to_string(), "a(,)\nb(,)\n");
}

#[test]
fn snippet_without_tabstop_selects_the_end_of_its_text() {
    let doc = Rope::from_str("xy");
    let snippet = Snippet {
        elements: vec![text("abc")],
    };
    let t = generate_transaction_from_snippet(&doc, &Selection::point(1), 0, 1, snippet, "\n", true);
    assert_eq!(
        t.changes,
        vec![Change::new(1, 2, Some("abc".to_string()))]
    );
    assert_eq!(t.selection, Some(Selection::new(vec![Range::new(4, 4)], 0)));
}

#[test]
fn snippet_that_does_not_fit_is_refused() {
    let doc = Rope::from_str("xy");
    let make = || Snippet {
        elements: vec![text("abc")],
    };
    assert_eq!(
        try_generate_transaction_from_snippet(&doc, &Selection::point(1), 0, 5, make(), "\n", true),
        None
    );
    assert_eq!(
        try_generate_transaction_from_snippet(&doc, &Selection::point(1), 1, 0, make(), "\n", true),
        None
    );
    // the second replacement would start before the first one ends
    let overlapping = Selection::new(vec![Range::point(2), Range::point(1)], 0);
    assert_eq!(
        try_generate_transaction_from_snippet(&doc, &overlapping, -1, 0, make(), "\n", true),
        None
    );
    // a selection has to name one of its ranges as the primary one
    let headless = Selection {
        ranges: vec![Range::point(1)],
        primary_index: 1,
    };
    assert_eq!(
        try_generate_transaction_from_snippet(&doc, &headless, 0, 0, make(), "\n", true),
        None
    );
    let fine = try_generate_transaction_from_snippet(&doc, &Selection::point(1), -1, 1, make(), "\n", true);
    assert_eq!(
        fine.map(|t| t.changes),
        Some(vec![Change::new(0, 2, Some("abc".to_string()))])
    );
}

#[test]
fn snippet_lines_keep_the_indentation_of_the_line_not_the_column() {
    let doc = Rope::from_str("x ab");
    let snippet = Snippet {
        elements: vec![text("a\nb")],
    };
    let t = generate_transaction_from_snippet(&doc, &Selection::point(4), -2, 0, snippet, "\n", true);
    // the line has no leading blank, so the new line has none
    assert_eq!(t.changes, vec![Change::new(2, 4, Some("a\nb".to_string()))]);
}

#[test]
fn snippet_lines_keep_tabs_and_blanks() {
    let mut doc = Rope::from_str("top\n\t  if x {}\n");
    let snippet = Snippet {
        elements: vec![
            text("{\n\t"),
            SnippetElement::Tabstop { tabstop: 0 },
            text("\n}"),
        ],
    };
    // the cursor stands behind the braces, which the snippet replaces
    let t = generate_transaction_from_snippet(&doc, &Selection::point(14), -2, 0, snippet, "\r\n", true);
    assert_eq!(
        t.changes,
        vec![Change::new(12, 14, Some("{\r\n\t  \t\r\n\t  }".to_string()))]
    );
    assert_eq!(t.selection, Some(Selection::new(vec![Range::new(19, 19)], 0)));
    assert!(t.apply(&mut doc));
    assert_eq!(doc.to_string(), "top\n\t  if x {\r\n\t  \t\r\n\t  }\n");
}

#[test]
fn snippet_in_a_line_of_blanks_keeps_all_of_them() {
    let doc = Rope::from_str("a\n    \nb");
    let snippet = Snippet {
        elements: vec![text("x\ny")],
    };
    let t = generate_transaction_from_snippet(&doc, &Selection::point(4), 0, 0, snippet, "\n", true);
    assert_eq!(t.changes, vec![Change::new(4, 4, Some("x\n    y".to_string()))]);
}

#[test]
fn render_replaces_every_line_feed() {
    let snippet = Snippet {
        elements: vec![text("\n\u{1f384}\n\n\u{e9}x\n"), text(""), text("no feed")],
    };
    let (rendered, tabstops) = render(&snippet, "\r\n\t", true);
    assert_eq!(rendered, "\r\n\t\u{1f384}\r\n\t\r\n\t\u{e9}x\r\n\tno feed");
    assert_eq!(tabstops, Vec::<Vec<(usize, usize)>>::new());
    let (rendered, _) = render(&snippet, "", true);
    assert_eq!(rendered, "\u{1f384}\u{e9}xno feed");
}
