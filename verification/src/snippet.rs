//! Snippets: templates of text with numbered tab stops, and the text and
//! the tab stop ranges that one renders to.

use crate::strings::chars_of;
use vstd::prelude::*;
use vstd::string::*;

verus! {

/// One node of a snippet.
#[derive(Debug, PartialEq, Eq)]
pub enum SnippetElement {
    /// A place for the cursor.
    Tabstop { tabstop: usize },
    /// A tab stop that comes with content of its own.
    Placeholder { tabstop: usize, value: Vec<SnippetElement> },
    /// A tab stop with values to pick from. None of them is rendered.
    Choice { tabstop: usize, choices: Vec<String> },
    /// A variable of the editor. It renders to its default, or to nothing.
    Variable { name: String, default: Option<String> },
    /// Plain text.
    Text(String),
}

/// A snippet: its nodes in order.
#[derive(Debug, PartialEq, Eq)]
pub struct Snippet {
    pub elements: Vec<SnippetElement>,
}

/// A tab stop of a rendered snippet: its number, and the chars it spans,
/// counted from the start of the rendered text.
pub type Tabstop = (usize, (usize, usize));

/// `text` with `with` in place of every line feed.
pub open spec fn replace_line_feeds(text: Seq<char>, with: Seq<char>) -> Seq<char>
    decreases text.len(),
{
    if text.len() == 0 {
        Seq::empty()
    } else if text[0] == '\n' {
        with + replace_line_feeds(text.drop_first(), with)
    } else {
        seq![text[0]] + replace_line_feeds(text.drop_first(), with)
    }
}

/// The text that one node renders to. Every line feed of a text node
/// becomes `newline`; the content of a placeholder is rendered only where
/// `filled` is set.
pub open spec fn element_text(e: SnippetElement, newline: Seq<char>, filled: bool) -> Seq<char>
    decreases e,
{
    match e {
        SnippetElement::Text(text) => replace_line_feeds(text@, newline),
        SnippetElement::Variable { name, default } => match default {
            Some(text) => text@,
            None => Seq::empty(),
        },
        SnippetElement::Placeholder { tabstop, value } => if filled {
            elements_text(value@, newline, filled)
        } else {
            Seq::empty()
        },
        SnippetElement::Tabstop { tabstop } => Seq::empty(),
        SnippetElement::Choice { tabstop, choices } => Seq::empty(),
    }
}

/// The text that nodes render to, one after the other.
pub open spec fn elements_text(es: Seq<SnippetElement>, newline: Seq<char>, filled: bool) -> Seq<
    char,
>
    decreases es,
{
    if es.len() == 0 {
        Seq::empty()
    } else {
        elements_text(es.drop_last(), newline, filled) + element_text(es.last(), newline, filled)
    }
}

/// The tab stops of one node that is rendered behind `offset` chars, in
/// the order in which they close: those inside a placeholder come before
/// the placeholder itself, which spans what its content rendered to.
pub open spec fn element_tabstops(
    e: SnippetElement,
    newline: Seq<char>,
    filled: bool,
    offset: nat,
) -> Seq<Tabstop>
    decreases e,
{
    match e {
        SnippetElement::Tabstop { tabstop } => seq![(tabstop, (offset as usize, offset as usize))],
        SnippetElement::Choice { tabstop, choices } => seq![
            (tabstop, (offset as usize, offset as usize)),
        ],
        SnippetElement::Placeholder { tabstop, value } => if filled {
            elements_tabstops(value@, newline, filled, offset).push(
                (
                    tabstop,
                    (
                        offset as usize,
                        (offset + elements_text(value@, newline, filled).len()) as usize,
                    ),
                ),
            )
        } else {
            seq![(tabstop, (offset as usize, offset as usize))]
        },
        SnippetElement::Variable { name, default } => Seq::empty(),
        SnippetElement::Text(text) => Seq::empty(),
    }
}

/// The tab stops of nodes that are rendered one after the other behind
/// `offset` chars.
pub open spec fn elements_tabstops(
    es: Seq<SnippetElement>,
    newline: Seq<char>,
    filled: bool,
    offset: nat,
) -> Seq<Tabstop>
    decreases es,
{
    if es.len() == 0 {
        Seq::empty()
    } else {
        elements_tabstops(es.drop_last(), newline, filled, offset) + element_tabstops(
            es.last(),
            newline,
            filled,
            offset + elements_text(es.drop_last(), newline, filled).len(),
        )
    }
}

/// The place of a tab stop among the others: by its number, but number 0
/// comes last, as it is where the cursor ends up.
pub open spec fn tabstop_key(t: Tabstop) -> usize {
    if t.0 == 0 {
        usize::MAX
    } else {
        t.0
    }
}

/// `sorted` with `t` put in front of the first tab stop whose place is not
/// before its own.
pub open spec fn insert_tabstop(t: Tabstop, sorted: Seq<Tabstop>) -> Seq<Tabstop>
    decreases sorted.len(),
{
    if sorted.len() > 0 && tabstop_key(sorted[0]) < tabstop_key(t) {
        seq![sorted[0]] + insert_tabstop(t, sorted.drop_first())
    } else {
        seq![t] + sorted
    }
}

/// The tab stops in the order of their places, those of one number in
/// the order in which they came.
pub open spec fn sort_tabstops(tabstops: Seq<Tabstop>) -> Seq<Tabstop>
    decreases tabstops.len(),
{
    if tabstops.len() == 0 {
        Seq::empty()
    } else {
        insert_tabstop(tabstops[0], sort_tabstops(tabstops.drop_first()))
    }
}

/// The ranges of sorted tab stops, those of one number in one group.
pub open spec fn group_tabstops(sorted: Seq<Tabstop>) -> Seq<Seq<(usize, usize)>>
    decreases sorted.len(),
{
    if sorted.len() == 0 {
        Seq::empty()
    } else {
        let before = group_tabstops(sorted.drop_last());
        if sorted.len() >= 2 && sorted[sorted.len() - 2].0 == sorted.last().0 {
            before.drop_last().push(before.last().push(sorted.last().1))
        } else {
            before.push(seq![sorted.last().1])
        }
    }
}

/// The text that a snippet renders to.
pub open spec fn rendered_text(snippet: Snippet, newline: Seq<char>, filled: bool) -> Seq<char> {
    elements_text(snippet.elements@, newline, filled)
}

/// The tab stops of a rendered snippet: one group of ranges for each
/// number, in the order of the numbers, number 0 last.
pub open spec fn rendered_tabstops(snippet: Snippet, newline: Seq<char>, filled: bool) -> Seq<
    Seq<(usize, usize)>,
> {
    group_tabstops(sort_tabstops(elements_tabstops(snippet.elements@, newline, filled, 0)))
}

/// The groups as sequences of ranges.
pub open spec fn groups_view(groups: Seq<Vec<(usize, usize)>>) -> Seq<Seq<(usize, usize)>> {
    Seq::new(groups.len(), |i: int| groups[i]@)
}

/// Whether every tab stop spans chars between `lo` and `hi`, its start
/// not behind its end.
pub open spec fn tabstops_within(tabstops: Seq<Tabstop>, lo: nat, hi: nat) -> bool {
    forall|k: int|
        0 <= k < tabstops.len() ==> lo <= (#[trigger] tabstops[k]).1.0 <= tabstops[k].1.1 <= hi
}

/// Whether every range of every group lies within `len` chars, its start
/// not behind its end.
pub open spec fn groups_within(groups: Seq<Seq<(usize, usize)>>, len: nat) -> bool {
    forall|g: int, k: int|
        0 <= g < groups.len() && 0 <= k < groups[g].len() ==> (#[trigger] groups[g][k]).0
            <= groups[g][k].1 <= len
}

proof fn lemma_element_tabstops_within(
    e: SnippetElement,
    newline: Seq<char>,
    filled: bool,
    offset: nat,
)
    requires
        offset + element_text(e, newline, filled).len() <= usize::MAX,
    ensures
        tabstops_within(
            element_tabstops(e, newline, filled, offset),
            offset,
            offset + element_text(e, newline, filled).len(),
        ),
    decreases e,
{
    match e {
        SnippetElement::Placeholder { tabstop, value } => {
            if filled {
                lemma_elements_tabstops_within(value@, newline, filled, offset);
            }
        },
        _ => {},
    }
}

proof fn lemma_elements_tabstops_within(
    es: Seq<SnippetElement>,
    newline: Seq<char>,
    filled: bool,
    offset: nat,
)
    requires
        offset + elements_text(es, newline, filled).len() <= usize::MAX,
    ensures
        tabstops_within(
            elements_tabstops(es, newline, filled, offset),
            offset,
            offset + elements_text(es, newline, filled).len(),
        ),
    decreases es,
{
    if es.len() > 0 {
        let before = es.drop_last();
        lemma_elements_tabstops_within(before, newline, filled, offset);
        lemma_element_tabstops_within(
            es.last(),
            newline,
            filled,
            offset + elements_text(before, newline, filled).len(),
        );
    }
}

proof fn lemma_insert_tabstop_within(t: Tabstop, sorted: Seq<Tabstop>, lo: nat, hi: nat)
    requires
        tabstops_within(sorted, lo, hi),
        lo <= t.1.0 <= t.1.1 <= hi,
    ensures
        tabstops_within(insert_tabstop(t, sorted), lo, hi),
    decreases sorted.len(),
{
    if sorted.len() > 0 && tabstop_key(sorted[0]) < tabstop_key(t) {
        let rest = sorted.drop_first();
        assert forall|k: int| 0 <= k < rest.len() implies lo <= (#[trigger] rest[k]).1.0
            <= rest[k].1.1 <= hi by {
            assert(rest[k] == sorted[k + 1]);
        }
        lemma_insert_tabstop_within(t, rest, lo, hi);
        let inner = insert_tabstop(t, rest);
        let out = insert_tabstop(t, sorted);
        assert forall|k: int| 0 <= k < out.len() implies lo <= (#[trigger] out[k]).1.0
            <= out[k].1.1 <= hi by {
            if k > 0 {
                assert(out[k] == inner[k - 1]);
            } else {
                assert(out[0] == sorted[0]);
            }
        }
    } else {
        let out = insert_tabstop(t, sorted);
        assert forall|k: int| 0 <= k < out.len() implies lo <= (#[trigger] out[k]).1.0
            <= out[k].1.1 <= hi by {
            if k > 0 {
                assert(out[k] == sorted[k - 1]);
            }
        }
    }
}

proof fn lemma_sort_tabstops_within(tabstops: Seq<Tabstop>, lo: nat, hi: nat)
    requires
        tabstops_within(tabstops, lo, hi),
    ensures
        tabstops_within(sort_tabstops(tabstops), lo, hi),
    decreases tabstops.len(),
{
    if tabstops.len() > 0 {
        let rest = tabstops.drop_first();
        assert forall|k: int| 0 <= k < rest.len() implies lo <= (#[trigger] rest[k]).1.0
            <= rest[k].1.1 <= hi by {
            assert(rest[k] == tabstops[k + 1]);
        }
        lemma_sort_tabstops_within(rest, lo, hi);
        assert(tabstops[0] == tabstops[0]);
        lemma_insert_tabstop_within(tabstops[0], sort_tabstops(rest), lo, hi);
    }
}

proof fn lemma_group_tabstops_within(sorted: Seq<Tabstop>, hi: nat)
    requires
        tabstops_within(sorted, 0, hi),
    ensures
        groups_within(group_tabstops(sorted), hi),
        sorted.len() > 0 ==> group_tabstops(sorted).len() > 0 && group_tabstops(
            sorted,
        ).last().len() > 0,
        sorted.len() == 0 ==> group_tabstops(sorted).len() == 0,
        forall|g: int| 0 <= g < group_tabstops(sorted).len() ==> (#[trigger] group_tabstops(sorted)[g]).len() > 0,
    decreases sorted.len(),
{
    if sorted.len() > 0 {
        let rest = sorted.drop_last();
        assert forall|k: int| 0 <= k < rest.len() implies 0 <= (#[trigger] rest[k]).1.0
            <= rest[k].1.1 <= hi by {
            assert(rest[k] == sorted[k]);
        }
        lemma_group_tabstops_within(rest, hi);
        let before = group_tabstops(rest);
        let out = group_tabstops(sorted);
        assert(sorted.last() == sorted[sorted.len() - 1]);
        assert forall|g: int, k: int| 0 <= g < out.len() && 0 <= k < out[g].len() implies (
        #[trigger] out[g][k]).0 <= out[g][k].1 <= hi by {
            if g < out.len() - 1 {
                assert(out[g] == before[g]);
            } else if sorted.len() >= 2 && sorted[sorted.len() - 2].0 == sorted.last().0 {
                if k < out[g].len() - 1 {
                    assert(out[g][k] == before.last()[k]);
                }
            }
        }
        assert forall|g: int| 0 <= g < out.len() implies (#[trigger] out[g]).len() > 0 by {
            if g < out.len() - 1 {
                assert(out[g] == before[g]);
            }
        }
    }
}

/// The tab stops of a rendered snippet lie within its text, and no group
/// of them is empty.
pub proof fn lemma_rendered_tabstops_within(snippet: Snippet, newline: Seq<char>, filled: bool)
    requires
        rendered_text(snippet, newline, filled).len() <= usize::MAX,
    ensures
        groups_within(
            rendered_tabstops(snippet, newline, filled),
            rendered_text(snippet, newline, filled).len(),
        ),
        forall|g: int|
            0 <= g < rendered_tabstops(snippet, newline, filled).len() ==> (
            #[trigger] rendered_tabstops(snippet, newline, filled)[g]).len() > 0,
{
    let len = rendered_text(snippet, newline, filled).len();
    let raw = elements_tabstops(snippet.elements@, newline, filled, 0);
    lemma_elements_tabstops_within(snippet.elements@, newline, filled, 0);
    lemma_sort_tabstops_within(raw, 0, len);
    lemma_group_tabstops_within(sort_tabstops(raw), len);
}

/// Replacing line feeds goes piece by piece, and leaves a piece without
/// line feeds as it is.
proof fn lemma_replace_line_feeds(a: Seq<char>, b: Seq<char>, with: Seq<char>)
    ensures
        replace_line_feeds(a + b, with) == replace_line_feeds(a, with) + replace_line_feeds(
            b,
            with,
        ),
        (forall|i: int| 0 <= i < a.len() ==> a[i] != '\n') ==> replace_line_feeds(a, with) == a,
    decreases a.len(),
{
    if a.len() == 0 {
        assert(a + b =~= b);
        assert(replace_line_feeds(a, with) =~= a);
    } else {
        let rest = a.drop_first();
        assert((a + b).drop_first() =~= rest + b);
        lemma_replace_line_feeds(rest, b, with);
        if forall|i: int| 0 <= i < a.len() ==> a[i] != '\n' {
            assert forall|i: int| 0 <= i < rest.len() implies rest[i] != '\n' by {
                assert(rest[i] == a[i + 1]);
            }
            assert(seq![a[0]] + rest =~= a);
        }
        assert(replace_line_feeds(a + b, with) =~= replace_line_feeds(a, with)
            + replace_line_feeds(b, with));
    }
}

/// A new string in which `with` stands for every line feed of `text`.
fn replace_each_line_feed(text: &str, with: &str) -> (r: String)
    ensures
        r@ == replace_line_feeds(text@, with@),
{
    let chars = chars_of(text);
    let len = chars.len();
    let mut out = String::new();
    // what lies before `from` is done; no line feed stands from there to `i`
    let mut from: usize = 0;
    let mut i: usize = 0;
    assert(text@.take(0) =~= Seq::<char>::empty());
    while i < len
        invariant
            from <= i <= len == text@.len(),
            chars@ == text@,
            forall|k: int| from <= k < i ==> text@[k] != '\n',
            out@ == replace_line_feeds(text@.take(from as int), with@),
        decreases len - i,
    {
        if chars[i] == '\n' {
            let ghost done = text@.take(from as int);
            let ghost piece = text@.subrange(from as int, i as int);
            let ghost feed = seq!['\n'];
            out.append(text.substring_char(from, i));
            out.append(with);
            proof {
                lemma_replace_line_feeds(piece, feed, with@);
                lemma_replace_line_feeds(done, piece + feed, with@);
                assert(feed.drop_first() =~= Seq::<char>::empty());
                assert(replace_line_feeds(feed.drop_first(), with@) =~= Seq::<char>::empty());
                assert(feed[0] == '\n');
                assert(replace_line_feeds(feed, with@) =~= with@);
                assert(text@.take(i + 1) =~= done + (piece + feed));
                assert(out@ =~= replace_line_feeds(text@.take(i + 1), with@));
            }
            from = i + 1;
        }
        i += 1;
    }
    let ghost done = text@.take(from as int);
    let ghost piece = text@.subrange(from as int, len as int);
    out.append(text.substring_char(from, len));
    proof {
        lemma_replace_line_feeds(piece, Seq::<char>::empty(), with@);
        lemma_replace_line_feeds(done, piece, with@);
        assert(text@ =~= done + piece);
    }
    out
}

fn render_element(
    e: &SnippetElement,
    insert: &mut String,
    tabstops: &mut Vec<Tabstop>,
    newline: &str,
    filled: bool,
)
    ensures
        final(insert)@ == old(insert)@ + element_text(*e, newline@, filled),
        final(tabstops)@ == old(tabstops)@ + element_tabstops(
            *e,
            newline@,
            filled,
            old(insert)@.len(),
        ),
    decreases e,
{
    let offset = insert.as_str().unicode_len();
    match e {
        SnippetElement::Text(text) => {
            let text = replace_each_line_feed(text.as_str(), newline);
            insert.append(text.as_str());
            assert(tabstops@ =~= old(tabstops)@ + Seq::<Tabstop>::empty());
        },
        SnippetElement::Variable { name, default } => {
            match default {
                Some(text) => {
                    insert.append(text.as_str());
                },
                None => {
                    assert(insert@ =~= old(insert)@ + Seq::<char>::empty());
                },
            }
            assert(tabstops@ =~= old(tabstops)@ + Seq::<Tabstop>::empty());
        },
        SnippetElement::Tabstop { tabstop } => {
            tabstops.push((*tabstop, (offset, offset)));
            assert(insert@ =~= old(insert)@ + Seq::<char>::empty());
            assert(tabstops@ =~= old(tabstops)@ + seq![(*tabstop, (offset, offset))]);
        },
        SnippetElement::Placeholder { tabstop, value } => {
            if filled {
                render_elements(value, insert, tabstops, newline, filled);
            } else {
                assert(insert@ =~= old(insert)@ + Seq::<char>::empty());
            }
            let end = insert.as_str().unicode_len();
            tabstops.push((*tabstop, (offset, end)));
            assert(tabstops@ =~= old(tabstops)@ + element_tabstops(
                *e,
                newline@,
                filled,
                old(insert)@.len(),
            ));
        },
        SnippetElement::Choice { tabstop, choices } => {
            tabstops.push((*tabstop, (offset, offset)));
            assert(insert@ =~= old(insert)@ + Seq::<char>::empty());
            assert(tabstops@ =~= old(tabstops)@ + seq![(*tabstop, (offset, offset))]);
        },
    }
}

fn render_elements(
    es: &Vec<SnippetElement>,
    insert: &mut String,
    tabstops: &mut Vec<Tabstop>,
    newline: &str,
    filled: bool,
)
    ensures
        final(insert)@ == old(insert)@ + elements_text(es@, newline@, filled),
        final(tabstops)@ == old(tabstops)@ + elements_tabstops(
            es@,
            newline@,
            filled,
            old(insert)@.len(),
        ),
    decreases es,
{
    let mut i: usize = 0;
    assert(es@.take(0) =~= Seq::<SnippetElement>::empty());
    assert(insert@ =~= old(insert)@ + Seq::<char>::empty());
    assert(tabstops@ =~= old(tabstops)@ + Seq::<Tabstop>::empty());
    while i < es.len()
        invariant
            i <= es.len(),
            insert@ == old(insert)@ + elements_text(es@.take(i as int), newline@, filled),
            tabstops@ == old(tabstops)@ + elements_tabstops(
                es@.take(i as int),
                newline@,
                filled,
                old(insert)@.len(),
            ),
        decreases es.len() - i,
    {
        let ghost insert_before = insert@;
        let ghost tabstops_before = tabstops@;
        render_element(&es[i], insert, tabstops, newline, filled);
        proof {
            let upto = es@.take(i + 1);
            assert(upto.drop_last() =~= es@.take(i as int));
            assert(upto.last() == es@[i as int]);
            assert(insert@ =~= old(insert)@ + elements_text(upto, newline@, filled));
            assert(tabstops@ =~= old(tabstops)@ + elements_tabstops(
                upto,
                newline@,
                filled,
                old(insert)@.len(),
            ));
        }
        i += 1;
    }
    assert(es@.take(i as int) =~= es@);
}

proof fn lemma_insert_tabstop_at(t: Tabstop, sorted: Seq<Tabstop>, at: int)
    requires
        0 <= at <= sorted.len(),
        forall|k: int| 0 <= k < at ==> tabstop_key(#[trigger] sorted[k]) < tabstop_key(t),
        at < sorted.len() ==> !(tabstop_key(sorted[at]) < tabstop_key(t)),
    ensures
        insert_tabstop(t, sorted) == sorted.insert(at, t),
    decreases at,
{
    if at == 0 {
        assert(seq![t] + sorted =~= sorted.insert(0, t));
    } else {
        let rest = sorted.drop_first();
        assert forall|k: int| 0 <= k < at - 1 implies tabstop_key(#[trigger] rest[k])
            < tabstop_key(t) by {
            assert(rest[k] == sorted[k + 1]);
        }
        lemma_insert_tabstop_at(t, rest, at - 1);
        assert(seq![sorted[0]] + rest.insert(at - 1, t) =~= sorted.insert(at, t));
    }
}

fn key_of(t: &Tabstop) -> (k: usize)
    ensures
        k == tabstop_key(*t),
{
    if t.0 == 0 {
        usize::MAX
    } else {
        t.0
    }
}

fn sort_rendered(tabstops: Vec<Tabstop>) -> (sorted: Vec<Tabstop>)
    ensures
        sorted@ == sort_tabstops(tabstops@),
{
    let ghost all = tabstops@;
    let mut tabstops = tabstops;
    let mut sorted: Vec<Tabstop> = Vec::new();
    assert(all.skip(all.len() as int) =~= Seq::<Tabstop>::empty());
    while tabstops.len() > 0
        invariant
            tabstops@ == all.take(tabstops.len() as int),
            tabstops.len() <= all.len(),
            sorted@ == sort_tabstops(all.skip(tabstops.len() as int)),
        decreases tabstops.len(),
    {
        let t = tabstops.pop().unwrap();
        let key = key_of(&t);
        let mut at: usize = 0;
        while at < sorted.len() && key_of(&sorted[at]) < key
            invariant
                at <= sorted.len(),
                key == tabstop_key(t),
                forall|k: int| 0 <= k < at ==> tabstop_key(#[trigger] sorted@[k]) < tabstop_key(t),
            decreases sorted.len() - at,
        {
            at += 1;
        }
        proof {
            lemma_insert_tabstop_at(t, sorted@, at as int);
            assert(all.skip(tabstops.len() as int).drop_first() =~= all.skip(tabstops.len() + 1));
            assert(all.skip(tabstops.len() as int)[0] == t);
            assert(tabstops@ =~= all.take(tabstops.len() as int));
        }
        sorted.insert(at, t);
    }
    proof {
        assert(all.skip(0) =~= all);
    }
    sorted
}

fn group_sorted(sorted: &Vec<Tabstop>) -> (groups: Vec<Vec<(usize, usize)>>)
    ensures
        groups_view(groups@) == group_tabstops(sorted@),
{
    let mut groups: Vec<Vec<(usize, usize)>> = Vec::new();
    let mut current: Vec<(usize, usize)> = Vec::new();
    let mut i: usize = 0;
    assert(sorted@.take(0) =~= Seq::<Tabstop>::empty());
    while i < sorted.len()
        invariant
            i <= sorted.len(),
            i == 0 ==> groups@.len() == 0 && current@.len() == 0,
            i > 0 ==> groups_view(groups@).push(current@) == group_tabstops(sorted@.take(i as int)),
        decreases sorted.len() - i,
    {
        let t = sorted[i];
        let ghost upto = sorted@.take(i + 1);
        let ghost before = group_tabstops(sorted@.take(i as int));
        proof {
            assert(upto.drop_last() =~= sorted@.take(i as int));
            assert(upto.last() == t);
            assert(upto.len() == i + 1);
            if i > 0 {
                assert(upto[upto.len() - 2] == sorted@[i - 1]);
            } else {
                assert(sorted@.take(0) =~= Seq::<Tabstop>::empty());
                assert(before =~= Seq::<Seq<(usize, usize)>>::empty());
            }
        }
        if i > 0 && sorted[i - 1].0 == t.0 {
            let ghost filling = current@;
            current.push(t.1);
            proof {
                assert(before == groups_view(groups@).push(filling));
                assert(before.last() == filling);
                assert(before.drop_last() =~= groups_view(groups@));
                assert(group_tabstops(upto) == before.drop_last().push(before.last().push(t.1)));
                assert(groups_view(groups@).push(current@) =~= group_tabstops(upto));
            }
        } else {
            if i > 0 {
                let ghost closed = groups_view(groups@).push(current@);
                groups.push(current);
                proof {
                    assert(groups_view(groups@) =~= closed);
                }
            } else {
                assert(groups_view(groups@) =~= Seq::<Seq<(usize, usize)>>::empty());
            }
            current = Vec::new();
            current.push(t.1);
            proof {
                assert(groups_view(groups@) == before);
                assert(current@ =~= seq![t.1]);
                assert(group_tabstops(upto) == before.push(seq![t.1]));
            }
        }
        i += 1;
    }
    if i > 0 {
        let ghost before = groups_view(groups@).push(current@);
        groups.push(current);
        proof {
            assert(groups_view(groups@) =~= before);
            assert(sorted@.take(i as int) =~= sorted@);
        }
    } else {
        assert(groups_view(groups@) =~= Seq::<Seq<(usize, usize)>>::empty());
    }
    groups
}

/// Renders a snippet: its text, with `newline` for every line feed of its
/// text nodes, and its tab stops as groups of ranges in the order of their
/// numbers, number 0 last. The ranges count chars from the start of the
/// text.
pub fn render(snippet: &Snippet, newline: &str, include_placeholder: bool) -> (r: (
    String,
    Vec<Vec<(usize, usize)>>,
))
    ensures
        r.0@ == rendered_text(*snippet, newline@, include_placeholder),
        groups_view(r.1@) == rendered_tabstops(*snippet, newline@, include_placeholder),
        groups_within(groups_view(r.1@), r.0@.len()),
{
    let mut insert = String::new();
    let mut tabstops: Vec<Tabstop> = Vec::new();
    render_elements(&snippet.elements, &mut insert, &mut tabstops, newline, include_placeholder);
    proof {
        assert(insert@ =~= rendered_text(*snippet, newline@, include_placeholder));
        assert(tabstops@ =~= elements_tabstops(
            snippet.elements@,
            newline@,
            include_placeholder,
            0,
        ));
    }
    let sorted = sort_rendered(tabstops);
    let groups = group_sorted(&sorted);
    // the text has a length that the machine can count, and so have the
    // ranges within it
    let _ = insert.as_str().unicode_len();
    proof {
        lemma_rendered_tabstops_within(*snippet, newline@, include_placeholder);
    }
    (insert, groups)
}

} // verus!
