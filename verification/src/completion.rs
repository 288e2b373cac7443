//! Transactions for what a completion puts in: plain text, or a snippet
//! with its tab stops.

use crate::rope::{char_at, char_to_line, len_chars, line_to_char, rope_text};
use crate::selection::{cursor_of, Range, Selection};
use crate::snippet::{
    groups_view, groups_within, lemma_rendered_tabstops_within, render, rendered_tabstops,
    rendered_text, Snippet,
};
use crate::text::{lemma_line_holds_char, lemma_line_of_monotonic, line_of, line_start};
use crate::transaction::{Change, Transaction};
use ropey::Rope;
use vstd::prelude::*;
use vstd::string::*;

verus! {

/// Whether the cursor of `range` can be found in `text` and, moved by
/// either offset, is an index that fits the machine.
pub open spec fn range_fits(text: Seq<char>, range: Range, start_offset: i128, end_offset: i128)
    -> bool {
    &&& range.head > range.anchor ==> range.head <= text.len()
    &&& 0 <= cursor_of(text, range) + start_offset <= usize::MAX
    &&& 0 <= cursor_of(text, range) + end_offset <= usize::MAX
}

/// Whether every range of a selection fits.
pub open spec fn completion_fits(
    text: Seq<char>,
    ranges: Seq<Range>,
    start_offset: i128,
    end_offset: i128,
) -> bool {
    forall|i: int|
        0 <= i < ranges.len() ==> range_fits(text, #[trigger] ranges[i], start_offset, end_offset)
}

/// The change that puts `new_text` in at one range: from the cursor moved
/// by `start_offset` to the cursor moved by `end_offset`. An empty text is
/// no replacement.
pub open spec fn completion_change(
    text: Seq<char>,
    range: Range,
    start_offset: i128,
    end_offset: i128,
    new_text: String,
) -> Change {
    Change {
        start: (cursor_of(text, range) + start_offset) as usize,
        end: (cursor_of(text, range) + end_offset) as usize,
        replacement: if new_text@.len() > 0 {
            Some(new_text)
        } else {
            None
        },
    }
}

/// The changes that put `new_text` in at every range, in their order.
pub open spec fn completion_changes(
    text: Seq<char>,
    ranges: Seq<Range>,
    start_offset: i128,
    end_offset: i128,
    new_text: String,
) -> Seq<Change> {
    Seq::new(
        ranges.len(),
        |i: int| completion_change(text, ranges[i], start_offset, end_offset, new_text),
    )
}

/// `cursor` moved by `offset`, where that is an index that fits.
fn moved(cursor: usize, offset: i128) -> (r: Option<usize>)
    ensures
        r is Some <==> 0 <= cursor + offset <= usize::MAX,
        r is Some ==> r->Some_0 == cursor + offset,
{
    match (cursor as i128).checked_add(offset) {
        Some(sum) => if 0 <= sum && sum <= usize::MAX as i128 {
            Some(sum as usize)
        } else {
            None
        },
        None => None,
    }
}

/// The chars that a completion replaces at `range`, if the range fits.
fn replaced_range(doc: &Rope, range: &Range, start_offset: i128, end_offset: i128) -> (r: Option<
    (usize, usize),
>)
    ensures
        r is Some <==> range_fits(rope_text(*doc), *range, start_offset, end_offset),
        r is Some ==> r->Some_0.0 == cursor_of(rope_text(*doc), *range) + start_offset
            && r->Some_0.1 == cursor_of(rope_text(*doc), *range) + end_offset,
{
    if range.head > range.anchor && range.head > len_chars(doc) {
        return None;
    }
    let cursor = range.cursor(doc);
    match (moved(cursor, start_offset), moved(cursor, end_offset)) {
        (Some(start), Some(end)) => Some((start, end)),
        _ => None,
    }
}

/// The chars that a completion replaces at a range that fits.
fn fitted_range(doc: &Rope, range: &Range, start_offset: i128, end_offset: i128) -> (r: (
    usize,
    usize,
))
    requires
        range_fits(rope_text(*doc), *range, start_offset, end_offset),
    ensures
        r.0 == cursor_of(rope_text(*doc), *range) + start_offset,
        r.1 == cursor_of(rope_text(*doc), *range) + end_offset,
{
    let cursor = range.cursor(doc);
    ((cursor as i128 + start_offset) as usize, (cursor as i128 + end_offset) as usize)
}

/// A transaction that puts `new_text` in at every range of the selection:
/// at each it replaces the chars from the cursor moved by `start_offset`
/// to the cursor moved by `end_offset`.
pub fn generate_transaction_from_completion_edit(
    doc: &Rope,
    selection: &Selection,
    start_offset: i128,
    end_offset: i128,
    new_text: String,
) -> (t: Transaction)
    requires
        completion_fits(rope_text(*doc), selection.ranges@, start_offset, end_offset),
    ensures
        t.len == rope_text(*doc).len(),
        t.selection is None,
        t.changes@ == completion_changes(
            rope_text(*doc),
            selection.ranges@,
            start_offset,
            end_offset,
            new_text,
        ),
{
    let ghost text = rope_text(*doc);
    let len = len_chars(doc);
    let mut changes: Vec<Change> = Vec::new();
    let mut i: usize = 0;
    while i < selection.ranges.len()
        invariant
            i <= selection.ranges.len(),
            text == rope_text(*doc),
            completion_fits(text, selection.ranges@, start_offset, end_offset),
            changes@ == completion_changes(
                text,
                selection.ranges@.take(i as int),
                start_offset,
                end_offset,
                new_text,
            ),
        decreases selection.ranges.len() - i,
    {
        let range = selection.ranges[i];
        assert(range_fits(text, selection.ranges@[i as int], start_offset, end_offset));
        let (start, end) = fitted_range(doc, &range, start_offset, end_offset);
        let replacement = if new_text.as_str().is_empty() {
            None
        } else {
            Some(new_text.clone())
        };
        changes.push(Change::new(start, end, replacement));
        proof {
            assert(changes@ =~= completion_changes(
                text,
                selection.ranges@.take(i + 1),
                start_offset,
                end_offset,
                new_text,
            ));
        }
        i += 1;
    }
    assert(selection.ranges@.take(i as int) =~= selection.ranges@);
    Transaction::change(len, changes)
}

/// The same transaction, for any selection and offsets: `None` where a
/// range does not fit.
pub fn try_generate_transaction_from_completion_edit(
    doc: &Rope,
    selection: &Selection,
    start_offset: i128,
    end_offset: i128,
    new_text: String,
) -> (r: Option<Transaction>)
    ensures
        r is Some <==> completion_fits(rope_text(*doc), selection.ranges@, start_offset, end_offset),
        r matches Some(t) ==> {
            &&& t.len == rope_text(*doc).len()
            &&& t.selection is None
            &&& t.changes@ == completion_changes(
                rope_text(*doc),
                selection.ranges@,
                start_offset,
                end_offset,
                new_text,
            )
        },
{
    let mut i: usize = 0;
    while i < selection.ranges.len()
        invariant
            i <= selection.ranges.len(),
            forall|j: int|
                0 <= j < i ==> range_fits(
                    rope_text(*doc),
                    #[trigger] selection.ranges@[j],
                    start_offset,
                    end_offset,
                ),
        decreases selection.ranges.len() - i,
    {
        let range = selection.ranges[i];
        if replaced_range(doc, &range, start_offset, end_offset).is_none() {
            assert(!range_fits(rope_text(*doc), selection.ranges@[i as int], start_offset, end_offset));
            return None;
        }
        i += 1;
    }
    Some(generate_transaction_from_completion_edit(doc, selection, start_offset, end_offset, new_text))
}

/// What is asked for when a snippet is put in: the text it goes into,
/// the offsets from each cursor between which it goes, the snippet, the
/// line ending to use, and whether placeholders are filled in.
pub struct Placement {
    pub text: Seq<char>,
    pub start_offset: i128,
    pub end_offset: i128,
    pub snippet: Snippet,
    pub line_ending: Seq<char>,
    pub filled: bool,
}

/// A blank or a tab: what a line is indented with.
pub open spec fn is_indent(c: char) -> bool {
    c == ' ' || c == '\t'
}

/// The blanks and tabs that `s` starts with.
pub open spec fn leading_indentation(s: Seq<char>) -> Seq<char>
    decreases s.len(),
{
    if s.len() > 0 && is_indent(s[0]) {
        seq![s[0]] + leading_indentation(s.drop_first())
    } else {
        Seq::empty()
    }
}

/// The indentation of line `l` of `text`: the blanks and tabs that the
/// line starts with.
pub open spec fn line_indentation(text: Seq<char>, l: nat) -> Seq<char> {
    leading_indentation(text.skip(line_start(text, l) as int))
}

impl Placement {
    /// The first char that the snippet replaces at `range`.
    pub open spec fn start_of(self, range: Range) -> int {
        cursor_of(self.text, range) + self.start_offset
    }

    /// The end of what the snippet replaces at `range`.
    pub open spec fn end_of(self, range: Range) -> int {
        cursor_of(self.text, range) + self.end_offset
    }

    /// What stands for a line feed of the snippet at `range`: the line
    /// ending, and the indentation of the line that holds the start of the
    /// replacement, so that the lines of the snippet keep the indentation
    /// of the line they are put into.
    pub open spec fn newline_at(self, range: Range) -> Seq<char> {
        let start = self.start_of(range) as nat;
        self.line_ending + line_indentation(self.text, line_of(self.text, start))
    }

    /// The text that the snippet renders to at `range`.
    pub open spec fn text_at(self, range: Range) -> Seq<char> {
        rendered_text(self.snippet, self.newline_at(range), self.filled)
    }

    /// The ranges to select within the text rendered at `range`, counted
    /// from its start: those of the first tab stop, or the end of the text
    /// where the snippet has no tab stop.
    pub open spec fn stops_at(self, range: Range) -> Seq<(usize, usize)> {
        let groups = rendered_tabstops(self.snippet, self.newline_at(range), self.filled);
        if groups.len() > 0 {
            groups[0]
        } else {
            seq![(self.text_at(range).len() as usize, self.text_at(range).len() as usize)]
        }
    }

    /// Whether `change` is what the snippet does at `range`.
    pub open spec fn is_change_at(self, change: Change, range: Range) -> bool {
        &&& change.start == self.start_of(range)
        &&& change.end == self.end_of(range)
        &&& change.replacement matches Some(s) && s@ == self.text_at(range)
    }

    /// Where the replacement at the `i`-th range starts in the text that
    /// the transaction leaves: its start in the old text, moved by what
    /// the replacements before it put in and took out.
    pub open spec fn new_start(self, ranges: Seq<Range>, i: int) -> int
        decreases i,
    {
        if i <= 0 {
            self.start_of(ranges[0])
        } else {
            self.new_start(ranges, i - 1) + self.text_at(ranges[i - 1]).len() + (self.start_of(
                ranges[i],
            ) - self.end_of(ranges[i - 1]))
        }
    }

    /// `stops`, counted from `base`, as selected ranges.
    pub open spec fn placed(stops: Seq<(usize, usize)>, base: int) -> Seq<Range> {
        Seq::new(
            stops.len(),
            |k: int|
                Range { anchor: (base + stops[k].0) as usize, head: (base + stops[k].1) as usize },
        )
    }

    /// The ranges to select for the first `n` ranges, in the text that the
    /// transaction leaves.
    pub open spec fn selected(self, ranges: Seq<Range>, n: int) -> Seq<Range>
        decreases n,
    {
        if n <= 0 {
            Seq::empty()
        } else {
            self.selected(ranges, n - 1) + Self::placed(
                self.stops_at(ranges[n - 1]),
                self.new_start(ranges, n - 1),
            )
        }
    }

    /// Whether the snippet can be put in at the `i`-th range: the cursor
    /// can be found, what it replaces lies within the text and behind what
    /// it replaces at the range before, and the text that the transaction
    /// leaves up to the end of this replacement fits the machine.
    pub open spec fn fits_at(self, ranges: Seq<Range>, i: int) -> bool {
        &&& range_fits(self.text, ranges[i], self.start_offset, self.end_offset)
        &&& self.start_of(ranges[i]) <= self.end_of(ranges[i]) <= self.text.len()
        &&& i > 0 ==> self.end_of(ranges[i - 1]) <= self.start_of(ranges[i])
        &&& self.new_start(ranges, i) + self.text_at(ranges[i]).len() <= usize::MAX
    }

    /// Whether the snippet can be put in at every range.
    pub open spec fn fits(self, ranges: Seq<Range>) -> bool {
        forall|i: int| 0 <= i < ranges.len() ==> #[trigger] self.fits_at(ranges, i)
    }

    /// The replacements start in the new text in the order of the ranges.
    pub proof fn lemma_new_start_bounds(self, ranges: Seq<Range>, i: int)
        requires
            0 <= i < ranges.len(),
            forall|j: int| 0 <= j <= i ==> #[trigger] self.fits_at(ranges, j),
        ensures
            0 <= self.new_start(ranges, i),
            i > 0 ==> self.new_start(ranges, i - 1) + self.text_at(ranges[i - 1]).len()
                <= self.new_start(ranges, i),
        decreases i,
    {
        assert(self.fits_at(ranges, i));
        if i > 0 {
            assert(self.fits_at(ranges, i - 1));
            self.lemma_new_start_bounds(ranges, i - 1);
        }
    }
}

/// `line_ending` followed by the blanks and tabs that stand in `doc`
/// from `line_start` on.
fn indented(doc: &Rope, line_ending: &str, line_start: usize) -> (s: String)
    requires
        line_start <= rope_text(*doc).len(),
    ensures
        s@ == line_ending@ + leading_indentation(rope_text(*doc).skip(line_start as int)),
{
    let ghost text = rope_text(*doc);
    let len = len_chars(doc);
    let mut s = line_ending.to_owned();
    let mut i: usize = line_start;
    assert(s@ =~= line_ending@ + Seq::<char>::empty());
    loop
        invariant_except_break
            line_start <= i <= len == text.len(),
            text == rope_text(*doc),
            s@ + leading_indentation(text.skip(i as int)) == line_ending@ + leading_indentation(
                text.skip(line_start as int),
            ),
        ensures
            s@ == line_ending@ + leading_indentation(text.skip(line_start as int)),
        decreases len - i,
    {
        if i >= len {
            assert(s@ =~= s@ + Seq::<char>::empty());
            break ;
        }
        let c = char_at(doc, i);
        proof {
            reveal_strlit(" ");
            reveal_strlit("\t");
            assert(text.skip(i as int)[0] == c);
            assert(text.skip(i as int).drop_first() =~= text.skip(i + 1));
        }
        if c == ' ' {
            s.append(" ");
        } else if c == '\t' {
            s.append("\t");
        } else {
            assert(s@ =~= s@ + Seq::<char>::empty());
            break ;
        }
        proof {
            assert(s@ + leading_indentation(text.skip(i + 1)) =~= line_ending@
                + leading_indentation(text.skip(line_start as int)));
        }
        i += 1;
    }
    s
}

/// What one range of the selection gets: the bounds of what is replaced,
/// the text that is put in, and the ranges to select within that text.
fn place_at(
    doc: &Rope,
    range: &Range,
    start_offset: i128,
    end_offset: i128,
    snippet: &Snippet,
    line_ending: &str,
    filled: bool,
) -> (placed: (usize, usize, String, Vec<(usize, usize)>))
    requires
        range_fits(rope_text(*doc), *range, start_offset, end_offset),
        cursor_of(rope_text(*doc), *range) + start_offset <= rope_text(*doc).len(),
    ensures
        ({
            let p = Placement {
                text: rope_text(*doc),
                start_offset,
                end_offset,
                snippet: *snippet,
                line_ending: line_ending@,
                filled,
            };
            &&& placed.0 == p.start_of(*range)
            &&& placed.1 == p.end_of(*range)
            &&& placed.2@ == p.text_at(*range)
            &&& placed.3@ == p.stops_at(*range)
            &&& placed.3@.len() > 0
            &&& forall|k: int|
                0 <= k < placed.3@.len() ==> (#[trigger] placed.3@[k]).0 <= placed.3@[k].1
                    <= placed.2@.len()
        }),
{
    let ghost text = rope_text(*doc);
    let (start, end) = fitted_range(doc, range, start_offset, end_offset);
    proof {
        lemma_line_holds_char(text, start as nat);
        lemma_line_of_monotonic(text, start as nat, start as nat);
    }
    let line_start = line_to_char(doc, char_to_line(doc, start));
    let newline = indented(doc, line_ending, line_start);
    let (replacement, mut tabstops) = render(snippet, newline.as_str(), filled);
    let replacement_len = replacement.as_str().unicode_len();
    proof {
        lemma_rendered_tabstops_within(*snippet, newline@, filled);
    }
    let ghost groups = groups_view(tabstops@);
    let stops = if tabstops.len() > 0 {
        assert(groups[0] == tabstops@[0]@);
        tabstops.swap_remove(0)
    } else {
        let mut end_of_text: Vec<(usize, usize)> = Vec::new();
        end_of_text.push((replacement_len, replacement_len));
        end_of_text
    };
    (start, end, replacement, stops)
}

/// A transaction that puts a snippet in at every range of the selection,
/// and selects its first tab stop at each.
///
/// At each range the snippet replaces the chars from the cursor moved by
/// `start_offset` to the cursor moved by `end_offset`. Its line feeds
/// become `line_ending` followed by the indentation of the place it is
/// put into. The selection to set holds, for every range, the ranges of
/// the first tab stop where they come to stand in the changed text, or
/// the end of the text that was put in where the snippet has no tab stop.
pub fn generate_transaction_from_snippet(
    doc: &Rope,
    selection: &Selection,
    start_offset: i128,
    end_offset: i128,
    snippet: Snippet,
    line_ending: &str,
    include_placeholder: bool,
) -> (t: Transaction)
    requires
        selection.wf(),
        (Placement {
            text: rope_text(*doc),
            start_offset,
            end_offset,
            snippet,
            line_ending: line_ending@,
            filled: include_placeholder,
        }).fits(selection.ranges@),
    ensures
        ({
            let p = Placement {
                text: rope_text(*doc),
                start_offset,
                end_offset,
                snippet,
                line_ending: line_ending@,
                filled: include_placeholder,
            };
            let ranges = selection.ranges@;
            &&& t.len == rope_text(*doc).len()
            &&& t.changes@.len() == ranges.len()
                && forall|i: int|
                0 <= i < ranges.len() ==> p.is_change_at(#[trigger] t.changes@[i], ranges[i])
            &&& t.selection matches Some(selected) && selected.wf() && selected.ranges@
                == p.selected(ranges, ranges.len() as int) && selected.primary_index == p.selected(
                ranges,
                selection.primary_index as int,
            ).len()
        }),
{
    let ghost p = Placement {
        text: rope_text(*doc),
        start_offset,
        end_offset,
        snippet,
        line_ending: line_ending@,
        filled: include_placeholder,
    };
    let ghost old_ranges = selection.ranges@;
    let len = len_chars(doc);
    let mut changes: Vec<Change> = Vec::new();
    let mut ranges: Vec<Range> = Vec::new();
    let mut primary: usize = 0;
    // `at` is where the char with index `last` of the old text comes to stand
    let mut last: usize = 0;
    let mut at: usize = 0;
    let mut i: usize = 0;
    while i < selection.ranges.len()
        invariant
            i <= selection.ranges.len(),
            old_ranges == selection.ranges@,
            selection.wf(),
            p == (Placement {
                text: rope_text(*doc),
                start_offset,
                end_offset,
                snippet,
                line_ending: line_ending@,
                filled: include_placeholder,
            }),
            p.fits(old_ranges),
            changes@.len() == i,
            forall|j: int| 0 <= j < i ==> p.is_change_at(#[trigger] changes@[j], old_ranges[j]),
            ranges@ == p.selected(old_ranges, i as int),
            i == 0 ==> at == 0 && last == 0,
            i > 0 ==> at == p.new_start(old_ranges, i - 1) + p.text_at(old_ranges[i - 1]).len()
                && last == p.end_of(old_ranges[i - 1]),
            i > selection.primary_index ==> primary == p.selected(
                old_ranges,
                selection.primary_index as int,
            ).len() && primary < ranges.len(),
        decreases selection.ranges.len() - i,
    {
        let range = selection.ranges[i];
        proof {
            assert(p.fits_at(old_ranges, i as int));
            if i > 0 {
                assert(p.fits_at(old_ranges, i - 1));
            }
            assert forall|j: int| 0 <= j <= i implies #[trigger] p.fits_at(old_ranges, j) by {}
            p.lemma_new_start_bounds(old_ranges, i as int);
        }
        let (start, end, replacement, stops) = place_at(
            doc,
            &range,
            start_offset,
            end_offset,
            &snippet,
            line_ending,
            include_placeholder,
        );
        let replacement_len = replacement.as_str().unicode_len();
        let base = at + (start - last);
        assert(base == p.new_start(old_ranges, i as int));
        if i == selection.primary_index {
            primary = ranges.len();
        }
        let ghost before = ranges@;
        let mut k: usize = 0;
        assert(before + Placement::placed(stops@.take(0), base as int) =~= before);
        while k < stops.len()
            invariant
                k <= stops.len(),
                base + replacement_len <= usize::MAX,
                replacement_len == replacement@.len(),
                forall|m: int|
                    0 <= m < stops@.len() ==> (#[trigger] stops@[m]).0 <= stops@[m].1
                        <= replacement@.len(),
                ranges@ == before + Placement::placed(stops@.take(k as int), base as int),
            decreases stops.len() - k,
        {
            let stop = stops[k];
            ranges.push(Range::new(base + stop.0, base + stop.1));
            proof {
                assert(ranges@ =~= before + Placement::placed(stops@.take(k + 1), base as int));
            }
            k += 1;
        }
        proof {
            assert(stops@.take(k as int) =~= stops@);
            assert(ranges@ == p.selected(old_ranges, i + 1));
        }
        changes.push(Change::new(start, end, Some(replacement)));
        at = base + replacement_len;
        last = end;
        i += 1;
    }
    Transaction::change(len, changes).with_selection(Selection::new(ranges, primary))
}

/// The same transaction, for any selection and offsets: `None` where the
/// selection names no primary range, or the snippet cannot be put in at
/// some range.
pub fn try_generate_transaction_from_snippet(
    doc: &Rope,
    selection: &Selection,
    start_offset: i128,
    end_offset: i128,
    snippet: Snippet,
    line_ending: &str,
    include_placeholder: bool,
) -> (r: Option<Transaction>)
    ensures
        ({
            let p = Placement {
                text: rope_text(*doc),
                start_offset,
                end_offset,
                snippet,
                line_ending: line_ending@,
                filled: include_placeholder,
            };
            let ranges = selection.ranges@;
            &&& r is Some <==> selection.wf() && p.fits(ranges)
            &&& r matches Some(t) ==> {
                &&& t.len == rope_text(*doc).len()
                &&& t.changes@.len() == ranges.len()
                    && forall|i: int|
                    0 <= i < ranges.len() ==> p.is_change_at(#[trigger] t.changes@[i], ranges[i])
                &&& t.selection matches Some(selected) && selected.wf() && selected.ranges@
                    == p.selected(ranges, ranges.len() as int) && selected.primary_index
                    == p.selected(ranges, selection.primary_index as int).len()
            }
        }),
{
    let ghost p = Placement {
        text: rope_text(*doc),
        start_offset,
        end_offset,
        snippet,
        line_ending: line_ending@,
        filled: include_placeholder,
    };
    let ghost old_ranges = selection.ranges@;
    if selection.primary_index >= selection.ranges.len() {
        return None;
    }
    let len = len_chars(doc);
    let mut last: usize = 0;
    let mut at: usize = 0;
    let mut i: usize = 0;
    while i < selection.ranges.len()
        invariant
            i <= selection.ranges.len(),
            old_ranges == selection.ranges@,
            selection.wf(),
            len == rope_text(*doc).len(),
            p == (Placement {
                text: rope_text(*doc),
                start_offset,
                end_offset,
                snippet,
                line_ending: line_ending@,
                filled: include_placeholder,
            }),
            forall|j: int| 0 <= j < i ==> #[trigger] p.fits_at(old_ranges, j),
            i == 0 ==> at == 0 && last == 0,
            i > 0 ==> at == p.new_start(old_ranges, i - 1) + p.text_at(old_ranges[i - 1]).len()
                && last == p.end_of(old_ranges[i - 1]),
        decreases selection.ranges.len() - i,
    {
        let range = selection.ranges[i];
        let (start, end) = match replaced_range(doc, &range, start_offset, end_offset) {
            Some(bounds) => bounds,
            None => {
                assert(!p.fits_at(old_ranges, i as int));
                return None;
            },
        };
        if !(last <= start && start <= end && end <= len) {
            assert(!p.fits_at(old_ranges, i as int));
            return None;
        }
        let placed = place_at(
            doc,
            &range,
            start_offset,
            end_offset,
            &snippet,
            line_ending,
            include_placeholder,
        );
        let replacement_len = placed.2.as_str().unicode_len();
        let end_at = match at.checked_add(start - last) {
            Some(base) => base.checked_add(replacement_len),
            None => None,
        };
        at = match end_at {
            Some(end_at) => end_at,
            None => {
                assert(!p.fits_at(old_ranges, i as int));
                return None;
            },
        };
        last = end;
        assert(p.fits_at(old_ranges, i as int));
        i += 1;
    }
    Some(
        generate_transaction_from_snippet(
            doc,
            selection,
            start_offset,
            end_offset,
            snippet,
            line_ending,
            include_placeholder,
        ),
    )
}

} // verus!
