//! Edits that a server sends: their order, and the changes they stand for.

use crate::diff::{common_prefix, diff, is_minimal_diff, lcs_len, removed};
use crate::lsp::{Position, TextEdit};
use crate::rope::{len_chars, rope_text};
use crate::text::line_count;
use crate::transaction::{
    apply_changes, apply_in_turn, changes_ordered, changes_separate, lemma_batch_is_sequential,
    lemma_separate_changes_are_ordered, Change, Transaction,
};
use crate::util::{lemma_position_in_bounds, lsp_pos_to_pos, position_to_char};
use crate::OffsetEncoding;
use ropey::Rope;
use vstd::prelude::*;

verus! {

/// `sorted` with `e` put in front of the first edit that does not start
/// before it.
pub open spec fn insert_by_start(e: TextEdit, sorted: Seq<TextEdit>) -> Seq<TextEdit>
    decreases sorted.len(),
{
    if sorted.len() > 0 && sorted[0].range.start.precedes(e.range.start) {
        seq![sorted[0]] + insert_by_start(e, sorted.drop_first())
    } else {
        seq![e] + sorted
    }
}

/// The edits in the order of their starts, those with the same start in
/// the order in which they came.
pub open spec fn sort_by_start(edits: Seq<TextEdit>) -> Seq<TextEdit>
    decreases edits.len(),
{
    if edits.len() == 0 {
        Seq::empty()
    } else {
        insert_by_start(edits[0], sort_by_start(edits.drop_first()))
    }
}

/// No edit starts before an edit that stands in front of it.
pub open spec fn sorted_by_start(edits: Seq<TextEdit>) -> bool {
    forall|i: int, j: int|
        0 <= i < j < edits.len() ==> !(#[trigger] edits[j]).range.start.precedes(
            (#[trigger] edits[i]).range.start,
        )
}

/// The edits of `edits` that start at `start`, in their order.
pub open spec fn starting_at(edits: Seq<TextEdit>, start: Position) -> Seq<TextEdit>
    decreases edits.len(),
{
    if edits.len() == 0 {
        Seq::empty()
    } else if edits[0].range.start == start {
        seq![edits[0]] + starting_at(edits.drop_first(), start)
    } else {
        starting_at(edits.drop_first(), start)
    }
}

proof fn lemma_starting_at_cons(first: TextEdit, rest: Seq<TextEdit>, start: Position)
    ensures
        starting_at(seq![first], start) == if first.range.start == start {
            seq![first]
        } else {
            Seq::empty()
        },
        starting_at(seq![first] + rest, start) == starting_at(seq![first], start) + starting_at(
            rest,
            start,
        ),
{
    assert(seq![first].drop_first() =~= Seq::<TextEdit>::empty());
    assert(starting_at(Seq::<TextEdit>::empty(), start) =~= Seq::<TextEdit>::empty());
    assert(starting_at(seq![first], start) =~= if first.range.start == start {
        seq![first]
    } else {
        Seq::empty()
    });
    assert((seq![first] + rest).drop_first() =~= rest);
    assert(starting_at(seq![first] + rest, start) =~= starting_at(seq![first], start)
        + starting_at(rest, start));
}

proof fn lemma_insert_at(e: TextEdit, sorted: Seq<TextEdit>, at: int)
    requires
        0 <= at <= sorted.len(),
        forall|k: int| 0 <= k < at ==> (#[trigger] sorted[k]).range.start.precedes(e.range.start),
        at < sorted.len() ==> !sorted[at].range.start.precedes(e.range.start),
    ensures
        insert_by_start(e, sorted) == sorted.insert(at, e),
    decreases at,
{
    if at == 0 {
        assert(seq![e] + sorted =~= sorted.insert(0, e));
    } else {
        let rest = sorted.drop_first();
        assert forall|k: int| 0 <= k < at - 1 implies (#[trigger] rest[k]).range.start.precedes(
            e.range.start,
        ) by {
            assert(rest[k] == sorted[k + 1]);
        }
        lemma_insert_at(e, rest, at - 1);
        assert(seq![sorted[0]] + rest.insert(at - 1, e) =~= sorted.insert(at, e));
    }
}

proof fn lemma_insert_properties(e: TextEdit, sorted: Seq<TextEdit>, start: Position)
    ensures
        insert_by_start(e, sorted).len() == sorted.len() + 1,
        insert_by_start(e, sorted).to_multiset() == sorted.to_multiset().insert(e),
        sorted_by_start(sorted) ==> sorted_by_start(insert_by_start(e, sorted)),
        starting_at(insert_by_start(e, sorted), start) == starting_at(seq![e], start) + starting_at(
            sorted,
            start,
        ),
    decreases sorted.len(),
{
    let out = insert_by_start(e, sorted);
    assert(seq![e].drop_first() =~= Seq::<TextEdit>::empty());
    if sorted.len() > 0 && sorted[0].range.start.precedes(e.range.start) {
        let rest = sorted.drop_first();
        let inner = insert_by_start(e, rest);
        lemma_insert_properties(e, rest, start);
        assert(out.drop_first() =~= inner);
        assert(out =~= inner.insert(0, sorted[0]));
        assert(sorted =~= rest.insert(0, sorted[0]));
        vstd::seq_lib::to_multiset_insert(inner, 0, sorted[0]);
        vstd::seq_lib::to_multiset_insert(rest, 0, sorted[0]);
        assert(out.to_multiset() =~= sorted.to_multiset().insert(e));
        if sorted_by_start(sorted) {
            assert(sorted_by_start(rest)) by {
                assert forall|i: int, j: int| 0 <= i < j < rest.len() implies !(
                #[trigger] rest[j]).range.start.precedes((#[trigger] rest[i]).range.start) by {
                    assert(rest[i] == sorted[i + 1] && rest[j] == sorted[j + 1]);
                }
            }
            assert forall|i: int, j: int| 0 <= i < j < out.len() implies !(
            #[trigger] out[j]).range.start.precedes((#[trigger] out[i]).range.start) by {
                if i > 0 {
                    assert(out[i] == inner[i - 1] && out[j] == inner[j - 1]);
                } else {
                    // whatever stands in `inner` is `e` or an edit of `rest`
                    assert(out[j] == inner[j - 1]);
                    assert(inner.to_multiset().count(inner[j - 1]) > 0) by {
                        inner.to_multiset_ensures();
                        assert(inner.contains(inner[j - 1]));
                    }
                    if inner[j - 1] != e {
                        rest.to_multiset_ensures();
                        assert(rest.contains(inner[j - 1]));
                        let k = choose|k: int| 0 <= k < rest.len() && rest[k] == inner[j - 1];
                        assert(rest[k] == sorted[k + 1]);
                    }
                }
            }
        }
        lemma_starting_at_cons(sorted[0], inner, start);
        lemma_starting_at_cons(sorted[0], rest, start);
        lemma_starting_at_cons(e, rest, start);
        assert(out =~= seq![sorted[0]] + inner);
        assert(sorted =~= seq![sorted[0]] + rest);
        assert(starting_at(out, start) =~= starting_at(seq![e], start) + starting_at(
            sorted,
            start,
        ));
    } else {
        assert(out =~= sorted.insert(0, e));
        vstd::seq_lib::to_multiset_insert(sorted, 0, e);
        if sorted_by_start(sorted) {
            assert forall|i: int, j: int| 0 <= i < j < out.len() implies !(
            #[trigger] out[j]).range.start.precedes((#[trigger] out[i]).range.start) by {
                if i > 0 {
                    assert(out[i] == sorted[i - 1] && out[j] == sorted[j - 1]);
                } else {
                    assert(out[j] == sorted[j - 1]);
                    assert(sorted[j - 1] == sorted[j - 1] && sorted[0] == sorted[0]);
                }
            }
        }
        lemma_starting_at_cons(e, sorted, start);
    }
}

/// Sorting keeps every edit, puts the edits in the order of their starts,
/// and keeps the edits that start at one place in the order they had.
pub proof fn lemma_sort_by_start(edits: Seq<TextEdit>, start: Position)
    ensures
        sort_by_start(edits).len() == edits.len(),
        sort_by_start(edits).to_multiset() == edits.to_multiset(),
        sorted_by_start(sort_by_start(edits)),
        starting_at(sort_by_start(edits), start) == starting_at(edits, start),
    decreases edits.len(),
{
    if edits.len() == 0 {
        assert(edits =~= Seq::<TextEdit>::empty());
    } else {
        let rest = edits.drop_first();
        lemma_sort_by_start(rest, start);
        lemma_insert_properties(edits[0], sort_by_start(rest), start);
        assert(edits =~= rest.insert(0, edits[0]));
        vstd::seq_lib::to_multiset_insert(rest, 0, edits[0]);
        assert(edits =~= seq![edits[0]] + rest);
        lemma_starting_at_cons(edits[0], rest, start);
    }
}

/// No two edits start at the same position.
pub open spec fn starts_distinct(edits: Seq<TextEdit>) -> bool {
    forall|i: int, j: int|
        0 <= i < j < edits.len() ==> (#[trigger] edits[i]).range.start != (
        #[trigger] edits[j]).range.start
}

proof fn lemma_sorted_is_unique(a: Seq<TextEdit>, b: Seq<TextEdit>)
    requires
        sorted_by_start(a),
        sorted_by_start(b),
        starts_distinct(a),
        a.to_multiset() == b.to_multiset(),
    ensures
        a == b,
    decreases a.len(),
{
    a.to_multiset_ensures();
    b.to_multiset_ensures();
    if a.len() == 0 {
        assert(a =~= b);
    } else {
        // the first of each is an edit of the other, and starts no later
        assert(a.contains(a[0]));
        assert(b.contains(b[0]));
        assert(b.to_multiset().count(a[0]) > 0);
        assert(a.to_multiset().count(b[0]) > 0);
        let k = choose|k: int| 0 <= k < b.len() && b[k] == a[0];
        let m = choose|m: int| 0 <= m < a.len() && a[m] == b[0];
        if k > 0 {
            assert(!b[k].range.start.precedes(b[0].range.start));
        }
        if m > 0 {
            assert(!a[m].range.start.precedes(a[0].range.start));
            assert(a[0].range.start != a[m].range.start);
        }
        assert(m == 0);
        let rest_a = a.drop_first();
        let rest_b = b.drop_first();
        assert(rest_a =~= a.remove(0));
        assert(rest_b =~= b.remove(0));
        assert(rest_a.to_multiset() =~= rest_b.to_multiset());
        assert forall|i: int, j: int| 0 <= i < j < rest_a.len() implies !(
        #[trigger] rest_a[j]).range.start.precedes((#[trigger] rest_a[i]).range.start)
            && rest_a[i].range.start != rest_a[j].range.start by {
            assert(rest_a[i] == a[i + 1] && rest_a[j] == a[j + 1]);
        }
        assert forall|i: int, j: int| 0 <= i < j < rest_b.len() implies !(
        #[trigger] rest_b[j]).range.start.precedes((#[trigger] rest_b[i]).range.start) by {
            assert(rest_b[i] == b[i + 1] && rest_b[j] == b[j + 1]);
        }
        lemma_sorted_is_unique(rest_a, rest_b);
        assert(a =~= seq![a[0]] + rest_a);
        assert(b =~= seq![b[0]] + rest_b);
    }
}

/// Where no two edits start at the same position, the order in which the
/// edits come is without effect: the same edits in any other order are
/// sorted to the same sequence, and so stand for the same changes.
pub proof fn lemma_order_without_effect(
    text: Seq<char>,
    edits: Seq<TextEdit>,
    other: Seq<TextEdit>,
    enc: OffsetEncoding,
)
    requires
        starts_distinct(edits),
        edits.to_multiset() == other.to_multiset(),
    ensures
        sort_by_start(edits) == sort_by_start(other),
        forall|changes: Seq<Change>|
            changes_for_edits(changes, text, edits, enc) == changes_for_edits(
                changes,
                text,
                other,
                enc,
            ),
{
    let start = Position { line: 0, character: 0 };
    lemma_sort_by_start(edits, start);
    lemma_sort_by_start(other, start);
    let a = sort_by_start(edits);
    let b = sort_by_start(other);
    // no edit stands twice among the edits, nor among the sorted ones
    assert(edits.no_duplicates()) by {
        assert forall|i: int, j: int|
            0 <= i < edits.len() && 0 <= j < edits.len() && i != j implies edits[i]
            != edits[j] by {
            if i < j {
                assert(edits[i].range.start != edits[j].range.start);
            } else {
                assert(edits[j].range.start != edits[i].range.start);
            }
        }
    }
    edits.lemma_multiset_has_no_duplicates();
    a.lemma_multiset_has_no_duplicates_conv();
    a.to_multiset_ensures();
    edits.to_multiset_ensures();
    assert forall|i: int, j: int| 0 <= i < j < a.len() implies (#[trigger] a[i]).range.start != (
    #[trigger] a[j]).range.start by {
        assert(a.contains(a[i]) && a.contains(a[j]));
        assert(edits.to_multiset().count(a[i]) > 0);
        assert(edits.to_multiset().count(a[j]) > 0);
        let p = choose|p: int| 0 <= p < edits.len() && edits[p] == a[i];
        let q = choose|q: int| 0 <= q < edits.len() && edits[q] == a[j];
        assert(a[i] != a[j]);
        if p < q {
            assert(edits[p].range.start != edits[q].range.start);
        } else {
            assert(edits[q].range.start != edits[p].range.start);
        }
    }
    lemma_sorted_is_unique(a, b);
}

/// Sorts the edits by their starts. Edits with the same start stay in the
/// order in which they came.
pub fn sort_edits(edits: Vec<TextEdit>) -> (sorted: Vec<TextEdit>)
    ensures
        sorted@ == sort_by_start(edits@),
        sorted@.len() == edits@.len(),
        sorted@.to_multiset() == edits@.to_multiset(),
        sorted_by_start(sorted@),
{
    let ghost all = edits@;
    let mut edits = edits;
    let mut sorted: Vec<TextEdit> = Vec::new();
    assert(all.skip(all.len() as int) =~= Seq::<TextEdit>::empty());
    while edits.len() > 0
        invariant
            edits@ == all.take(edits.len() as int),
            edits.len() <= all.len(),
            sorted@ == sort_by_start(all.skip(edits.len() as int)),
        decreases edits.len(),
    {
        let ghost before = edits@;
        let e = edits.pop().unwrap();
        let mut at: usize = 0;
        while at < sorted.len() && sorted[at].range.start.is_before(&e.range.start)
            invariant
                at <= sorted.len(),
                forall|k: int|
                    0 <= k < at ==> (#[trigger] sorted@[k]).range.start.precedes(e.range.start),
            decreases sorted.len() - at,
        {
            at += 1;
        }
        proof {
            lemma_insert_at(e, sorted@, at as int);
            assert(all.skip(edits.len() as int).drop_first() =~= all.skip(edits.len() + 1));
            assert(all.skip(edits.len() as int)[0] == e);
            assert(edits@ =~= all.take(edits.len() as int));
        }
        sorted.insert(at, e);
    }
    proof {
        assert(all.skip(0) =~= all);
        lemma_sort_by_start(all, Position { line: 0, character: 0 });
    }
    sorted
}

/// The change that an edit stands for: its range in char indices, and its
/// text unless that is empty. An edit with an end that names no char of
/// the text stands for a change that does nothing.
pub open spec fn change_of_edit(text: Seq<char>, edit: TextEdit, enc: OffsetEncoding) -> Change {
    match (
        position_to_char(text, edit.range.start, enc),
        position_to_char(text, edit.range.end, enc),
    ) {
        (Some(start), Some(end)) => Change {
            start: start as usize,
            end: end as usize,
            replacement: if edit.new_text@.len() > 0 {
                Some(edit.new_text)
            } else {
                None
            },
        },
        _ => Change { start: 0, end: 0, replacement: None },
    }
}

/// The changes that the edits stand for, one for each, in their order.
pub open spec fn changes_of_edits(text: Seq<char>, edits: Seq<TextEdit>, enc: OffsetEncoding) -> Seq<
    Change,
> {
    Seq::new(edits.len(), |i: int| change_of_edit(text, edits[i], enc))
}

/// Whether the edit replaces the text from its first char to its end.
pub open spec fn replaces_document(text: Seq<char>, edit: TextEdit, enc: OffsetEncoding) -> bool {
    &&& position_to_char(text, edit.range.start, enc) == Some(0nat)
    &&& position_to_char(text, edit.range.end, enc) == Some(text.len())
}

/// Whether `changes` are what the edits of a server ask for. A single
/// edit that replaces the whole text asks for changes that turn the text
/// into the new one and leave alone as many chars as the two texts have
/// in common. Anything else asks for the batch of the edits' changes, in
/// the order of their starts.
pub open spec fn changes_for_edits(
    changes: Seq<Change>,
    text: Seq<char>,
    edits: Seq<TextEdit>,
    enc: OffsetEncoding,
) -> bool {
    let sorted = sort_by_start(edits);
    if sorted.len() == 1 && replaces_document(text, sorted[0], enc) {
        is_minimal_diff(changes, text, sorted[0].new_text@)
    } else {
        changes == changes_of_edits(text, sorted, enc)
    }
}

fn edit_replaces_document(doc: &Rope, edit: &TextEdit, offset_encoding: OffsetEncoding) -> (b: bool)
    ensures
        b == replaces_document(rope_text(*doc), *edit, offset_encoding),
{
    match (
        lsp_pos_to_pos(doc, edit.range.start, offset_encoding),
        lsp_pos_to_pos(doc, edit.range.end, offset_encoding),
    ) {
        (Some(start), Some(end)) => start == 0 && end == len_chars(doc),
        _ => false,
    }
}

fn edit_to_change(doc: &Rope, edit: &TextEdit, offset_encoding: OffsetEncoding) -> (c: Change)
    ensures
        c == change_of_edit(rope_text(*doc), *edit, offset_encoding),
{
    // an empty text is no replacement, for smaller changes
    let replacement = if !edit.new_text.as_str().is_empty() {
        Some(edit.new_text.clone())
    } else {
        None
    };
    let start = match lsp_pos_to_pos(doc, edit.range.start, offset_encoding) {
        Some(start) => start,
        None => { return Change::new(0, 0, None); },
    };
    let end = match lsp_pos_to_pos(doc, edit.range.end, offset_encoding) {
        Some(end) => end,
        None => { return Change::new(0, 0, None); },
    };
    Change::new(start, end, replacement)
}

/// Turns the edits of a server into a transaction on `doc`.
///
/// The edits are sorted by their starts, as some servers send them last
/// first. A single edit that spans the whole document becomes the
/// changes of a diff between the old and the new text, which leave alone
/// as many chars as the two have in common. Otherwise each edit becomes
/// one change of a batch; an edit with a position that names no char of
/// the document becomes a change that does nothing.
pub fn generate_transaction_from_edits(
    doc: &Rope,
    edits: Vec<TextEdit>,
    offset_encoding: OffsetEncoding,
) -> (t: Transaction)
    ensures
        t.len == rope_text(*doc).len(),
        t.selection is None,
        changes_for_edits(t.changes@, rope_text(*doc), edits@, offset_encoding),
{
    let ghost text = rope_text(*doc);
    let len = len_chars(doc);
    let sorted = sort_edits(edits);
    if sorted.len() == 1 && edit_replaces_document(doc, &sorted[0], offset_encoding) {
        let changes = diff(doc, sorted[0].new_text.as_str());
        return Transaction::change(len, changes);
    }
    let mut changes: Vec<Change> = Vec::new();
    let mut i: usize = 0;
    while i < sorted.len()
        invariant
            i <= sorted.len(),
            text == rope_text(*doc),
            changes@ == changes_of_edits(text, sorted@.take(i as int), offset_encoding),
        decreases sorted.len() - i,
    {
        let change = edit_to_change(doc, &sorted[i], offset_encoding);
        changes.push(change);
        proof {
            assert(changes@ =~= changes_of_edits(text, sorted@.take(i + 1), offset_encoding));
        }
        i += 1;
    }
    proof {
        assert(sorted@.take(i as int) =~= sorted@);
    }
    Transaction::change(len, changes)
}

/// Where the changes of a batch of edits are ordered, the transaction
/// makes of the text what the edits make of it one after the other, in the
/// order of their starts.
pub proof fn lemma_edits_apply_in_order(text: Seq<char>, edits: Seq<TextEdit>, enc: OffsetEncoding)
    requires
        changes_ordered(changes_of_edits(text, sort_by_start(edits), enc), 0, text.len()),
    ensures
        apply_changes(text, changes_of_edits(text, sort_by_start(edits), enc)) == apply_in_turn(
            text,
            changes_of_edits(text, sort_by_start(edits), enc),
            0,
        ),
{
    lemma_batch_is_sequential(text, changes_of_edits(text, sort_by_start(edits), enc));
}

/// Whether the edits, taken in the order of their starts, are separate:
/// both ends of each name a char of the text, the start not behind the
/// end, and each ends before any that comes after it starts.
pub open spec fn edits_separate(text: Seq<char>, edits: Seq<TextEdit>, enc: OffsetEncoding) -> bool {
    let sorted = sort_by_start(edits);
    &&& forall|i: int|
        0 <= i < sorted.len() ==> position_to_char(text, (#[trigger] sorted[i]).range.start, enc)
            is Some && position_to_char(text, sorted[i].range.end, enc) is Some
            && position_to_char(text, sorted[i].range.start, enc)->Some_0 <= position_to_char(
            text,
            sorted[i].range.end,
            enc,
        )->Some_0
    &&& forall|i: int, j: int|
        0 <= i < j < sorted.len() ==> position_to_char(
            text,
            (#[trigger] sorted[i]).range.end,
            enc,
        )->Some_0 <= position_to_char(text, (#[trigger] sorted[j]).range.start, enc)->Some_0
}

/// The changes of separate edits can be carried out, and make of the text
/// what the edits make of it one after the other, in the order of their
/// starts: each range gives way to its text, and every char outside the
/// ranges stays.
pub proof fn lemma_separate_edits_apply(text: Seq<char>, edits: Seq<TextEdit>, enc: OffsetEncoding)
    requires
        edits_separate(text, edits, enc),
        text.len() <= usize::MAX,
    ensures
        changes_ordered(changes_of_edits(text, sort_by_start(edits), enc), 0, text.len()),
        apply_changes(text, changes_of_edits(text, sort_by_start(edits), enc)) == apply_in_turn(
            text,
            changes_of_edits(text, sort_by_start(edits), enc),
            0,
        ),
{
    let sorted = sort_by_start(edits);
    let changes = changes_of_edits(text, sorted, enc);
    lemma_sort_by_start(edits, Position { line: 0, character: 0 });
    assert forall|i: int| 0 <= i < changes.len() implies (#[trigger] changes[i]).start
        == position_to_char(text, sorted[i].range.start, enc)->Some_0 && changes[i].end
        == position_to_char(text, sorted[i].range.end, enc)->Some_0 && changes[i].end
        <= text.len() by {
        assert(sorted[i] == sorted[i]);
        lemma_position_in_bounds(text, sorted[i].range.start, enc);
        lemma_position_in_bounds(text, sorted[i].range.end, enc);
    }
    assert(changes_separate(changes, text.len())) by {
        assert forall|i: int, j: int| 0 <= i < j < changes.len() implies (
        #[trigger] changes[i]).end <= (#[trigger] changes[j]).start by {
            assert(sorted[i] == sorted[i] && sorted[j] == sorted[j]);
        }
    }
    lemma_separate_changes_are_ordered(changes, 0, text.len());
    lemma_batch_is_sequential(text, changes);
}

/// Where a single edit replaces the whole text, the transaction can be
/// carried out and makes of the text the text of the edit. It touches
/// nothing before the first char in which the two differ, and the chars
/// it leaves alone are as many as the two texts have in common.
pub proof fn lemma_replacement_applies(
    changes: Seq<Change>,
    text: Seq<char>,
    edits: Seq<TextEdit>,
    enc: OffsetEncoding,
)
    requires
        changes_for_edits(changes, text, edits, enc),
        sort_by_start(edits).len() == 1,
        replaces_document(text, sort_by_start(edits)[0], enc),
    ensures
        changes_ordered(changes, 0, text.len()),
        apply_changes(text, changes) == sort_by_start(edits)[0].new_text@,
        forall|k: int|
            0 <= k < changes.len() ==> (#[trigger] changes[k]).start >= common_prefix(
                text,
                sort_by_start(edits)[0].new_text@,
            ),
        text.len() - removed(changes) == lcs_len(text, sort_by_start(edits)[0].new_text@),
{
    lemma_separate_changes_are_ordered(changes, 0, text.len());
}

} // verus!
