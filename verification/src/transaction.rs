//! Changes to a document: what a batch of them does to a text, and that
//! this is what they do one after the other.

use crate::rope::{insert, len_chars, remove, rope_text};
use crate::selection::Selection;
use ropey::Rope;
use vstd::prelude::*;
use vstd::string::*;

verus! {

/// One replacement: the chars from `start` up to, and without, `end` make
/// way for `replacement`. Both indices count chars of the text as it was
/// before any change of the batch.
#[derive(Debug, PartialEq, Eq)]
pub struct Change {
    pub start: usize,
    pub end: usize,
    pub replacement: Option<String>,
}

impl Change {
    /// The chars that the change puts in.
    pub open spec fn inserted(self) -> Seq<char> {
        match self.replacement {
            Some(s) => s@,
            None => Seq::empty(),
        }
    }

    /// A change that takes nothing out and puts nothing in.
    pub open spec fn is_noop(self) -> bool {
        self.start == self.end && self.inserted().len() == 0
    }

    /// Whether the change takes nothing out and puts nothing in.
    pub fn does_nothing(&self) -> (b: bool)
        ensures
            b == self.is_noop(),
    {
        self.start == self.end && match &self.replacement {
            Some(s) => s.as_str().is_empty(),
            None => true,
        }
    }

    pub fn new(start: usize, end: usize, replacement: Option<String>) -> (c: Change)
        ensures
            c == (Change { start, end, replacement }),
    {
        Change { start, end, replacement }
    }
}

/// Whether the changes that do something come in the order of the text,
/// none reaching into the next, the first not before `last`, all within a
/// text of `len` chars. Changes that do nothing may stand anywhere.
pub open spec fn changes_ordered(changes: Seq<Change>, last: nat, len: nat) -> bool
    decreases changes.len(),
{
    if changes.len() == 0 {
        last <= len
    } else if changes[0].is_noop() {
        changes_ordered(changes.drop_first(), last, len)
    } else {
        &&& last <= changes[0].start <= changes[0].end <= len
        &&& changes_ordered(changes.drop_first(), changes[0].end as nat, len)
    }
}

/// What the batch makes of `text` from index `last` on: the stretches
/// between the changes stay, and each change puts its replacement where
/// its range was.
pub open spec fn splice(text: Seq<char>, changes: Seq<Change>, last: nat) -> Seq<char>
    decreases changes.len(),
{
    if changes.len() == 0 {
        text.skip(last as int)
    } else if changes[0].is_noop() {
        splice(text, changes.drop_first(), last)
    } else {
        text.subrange(last as int, changes[0].start as int) + changes[0].inserted() + splice(
            text,
            changes.drop_first(),
            changes[0].end as nat,
        )
    }
}

/// The text that the batch makes of `text`.
pub open spec fn apply_changes(text: Seq<char>, changes: Seq<Change>) -> Seq<char> {
    splice(text, changes, 0)
}

/// `text` with the chars from `start` up to `end` replaced by `new`.
pub open spec fn replace_range(text: Seq<char>, start: int, end: int, new: Seq<char>) -> Seq<
    char,
> {
    text.take(start) + new + text.skip(end)
}

/// The text after each change was carried out in turn, each on what the
/// ones before it left. `shift` is how far those have moved what lies
/// behind them.
pub open spec fn apply_in_turn(text: Seq<char>, changes: Seq<Change>, shift: int) -> Seq<char>
    decreases changes.len(),
{
    if changes.len() == 0 {
        text
    } else if changes[0].is_noop() {
        apply_in_turn(text, changes.drop_first(), shift)
    } else {
        apply_in_turn(
            replace_range(
                text,
                changes[0].start + shift,
                changes[0].end + shift,
                changes[0].inserted(),
            ),
            changes.drop_first(),
            shift + changes[0].inserted().len() - (changes[0].end - changes[0].start),
        )
    }
}

proof fn lemma_splice_in_turn(text: Seq<char>, changes: Seq<Change>, done: Seq<char>, last: nat)
    requires
        changes_ordered(changes, last, text.len()),
    ensures
        apply_in_turn(done + text.skip(last as int), changes, done.len() - last) == done + splice(
            text,
            changes,
            last,
        ),
    decreases changes.len(),
{
    if changes.len() == 0 {
    } else if changes[0].is_noop() {
        lemma_splice_in_turn(text, changes.drop_first(), done, last);
    } else {
        let c = changes[0];
        let shift = done.len() - last;
        let kept = text.subrange(last as int, c.start as int);
        let done2 = done + kept + c.inserted();
        let now = done + text.skip(last as int);
        assert(replace_range(now, c.start + shift, c.end + shift, c.inserted()) =~= done2
            + text.skip(c.end as int));
        lemma_splice_in_turn(text, changes.drop_first(), done2, c.end as nat);
        assert(done2 + splice(text, changes.drop_first(), c.end as nat) =~= done + splice(
            text,
            changes,
            last,
        ));
    }
}

/// Whether every change lies within a text of `len` chars, its start not
/// behind its end, and ends before every change that comes after it
/// starts.
pub open spec fn changes_separate(changes: Seq<Change>, len: nat) -> bool {
    &&& forall|i: int|
        0 <= i < changes.len() ==> (#[trigger] changes[i]).start <= changes[i].end <= len
    &&& forall|i: int, j: int|
        0 <= i < j < changes.len() ==> (#[trigger] changes[i]).end <= (#[trigger] changes[j]).start
}

/// Changes that are separate are ordered, from any place that lies
/// before all of them.
pub proof fn lemma_separate_changes_are_ordered(changes: Seq<Change>, last: nat, len: nat)
    requires
        changes_separate(changes, len),
        last <= len,
        forall|i: int| 0 <= i < changes.len() ==> last <= (#[trigger] changes[i]).start,
    ensures
        changes_ordered(changes, last, len),
    decreases changes.len(),
{
    if changes.len() > 0 {
        let rest = changes.drop_first();
        assert forall|i: int| 0 <= i < rest.len() implies (#[trigger] rest[i]).start <= rest[i].end
            <= len && last <= rest[i].start && changes[0].end <= rest[i].start by {
            assert(rest[i] == changes[i + 1]);
        }
        assert forall|i: int, j: int| 0 <= i < j < rest.len() implies (#[trigger] rest[i]).end <= (
        #[trigger] rest[j]).start by {
            assert(rest[i] == changes[i + 1] && rest[j] == changes[j + 1]);
        }
        if changes[0].is_noop() {
            lemma_separate_changes_are_ordered(rest, last, len);
        } else {
            lemma_separate_changes_are_ordered(rest, changes[0].end as nat, len);
        }
    }
}

/// A batch of ordered changes makes of a text what its changes make of it
/// one after the other, in the order of their starts.
pub proof fn lemma_batch_is_sequential(text: Seq<char>, changes: Seq<Change>)
    requires
        changes_ordered(changes, 0, text.len()),
    ensures
        apply_changes(text, changes) == apply_in_turn(text, changes, 0),
{
    lemma_splice_in_turn(text, changes, Seq::empty(), 0);
    assert(Seq::<char>::empty() + text.skip(0) =~= text);
    assert(Seq::<char>::empty() + splice(text, changes, 0) =~= splice(text, changes, 0));
}

/// A batch of changes to a document of `len` chars, and the selection to
/// set once they are made, if any.
#[derive(Debug, PartialEq, Eq)]
pub struct Transaction {
    pub changes: Vec<Change>,
    pub selection: Option<Selection>,
    pub len: usize,
}

/// Whether the changes are ordered within a text of `len` chars.
pub fn is_ordered(changes: &Vec<Change>, len: usize) -> (b: bool)
    ensures
        b == changes_ordered(changes@, 0, len as nat),
{
    let mut last: usize = 0;
    let mut i: usize = 0;
    assert(changes@.skip(0) =~= changes@);
    while i < changes.len()
        invariant
            i <= changes.len(),
            last <= len,
            changes_ordered(changes@, 0, len as nat) == changes_ordered(
                changes@.skip(i as int),
                last as nat,
                len as nat,
            ),
        decreases changes.len() - i,
    {
        let c = &changes[i];
        proof {
            assert(changes@.skip(i as int).drop_first() =~= changes@.skip(i + 1));
            assert(changes@.skip(i as int)[0] == changes@[i as int]);
        }
        if !c.does_nothing() {
            if !(last <= c.start && c.start <= c.end && c.end <= len) {
                return false;
            }
            last = c.end;
        }
        i += 1;
    }
    proof {
        assert(changes@.skip(i as int) =~= Seq::<Change>::empty());
    }
    true
}

impl Transaction {
    /// A transaction that makes the given changes to a document of `len`
    /// chars and sets no selection.
    pub fn change(len: usize, changes: Vec<Change>) -> (t: Transaction)
        ensures
            t == (Transaction { changes, selection: None, len }),
    {
        Transaction { changes, selection: None, len }
    }

    /// The same changes, with `selection` to set once they are made.
    pub fn with_selection(self, selection: Selection) -> (t: Transaction)
        ensures
            t == (Transaction {
                changes: self.changes,
                selection: Some(selection),
                len: self.len,
            }),
    {
        Transaction { changes: self.changes, selection: Some(selection), len: self.len }
    }

    /// Whether the transaction can be carried out on `text`: it was made
    /// for a text of this length, and its changes are ordered.
    pub open spec fn applies_to(self, text: Seq<char>) -> bool {
        &&& self.len == text.len()
        &&& changes_ordered(self.changes@, 0, text.len())
    }

    /// The text that the transaction makes of `text`.
    pub open spec fn result(self, text: Seq<char>) -> Seq<char> {
        apply_changes(text, self.changes@)
    }

    /// Carries the transaction out on `doc`. Where it cannot be carried
    /// out the document stays as it is and the result is `false`.
    pub fn apply(&self, doc: &mut Rope) -> (ok: bool)
        ensures
            ok == self.applies_to(rope_text(*old(doc))),
            ok ==> rope_text(*final(doc)) == self.result(rope_text(*old(doc))),
            !ok ==> rope_text(*final(doc)) == rope_text(*old(doc)),
    {
        let len = len_chars(doc);
        if len != self.len {
            return false;
        }
        let ghost text = rope_text(*doc);
        let changes = &self.changes;
        if !is_ordered(changes, len) {
            return false;
        }
        // `at` is where the char with index `last` of the old text now stands
        let mut last: usize = 0;
        let mut at: usize = 0;
        let mut now_len: usize = len;
        let mut i: usize = 0;
        let ghost mut done = Seq::<char>::empty();
        assert(changes@.skip(0) =~= changes@);
        assert(done + text.skip(0) =~= text);
        assert(done + splice(text, changes@, 0) =~= apply_changes(text, changes@));
        while i < changes.len()
            invariant
                i <= changes.len(),
                last <= len == text.len(),
                at == done.len(),
                now_len == at + (len - last),
                rope_text(*doc) == done + text.skip(last as int),
                changes_ordered(changes@.skip(i as int), last as nat, len as nat),
                done + splice(text, changes@.skip(i as int), last as nat) == apply_changes(
                    text,
                    changes@,
                ),
            decreases changes.len() - i,
        {
            let c = &changes[i];
            proof {
                assert(changes@.skip(i as int).drop_first() =~= changes@.skip(i + 1));
                assert(changes@.skip(i as int)[0] == changes@[i as int]);
            }
            if !c.does_nothing() {
                let ghost kept = text.subrange(last as int, c.start as int);
                let start = at + (c.start - last);
                remove(doc, start, start + (c.end - c.start));
                match &c.replacement {
                    Some(s) => {
                        insert(doc, start, s.as_str());
                    },
                    None => {},
                }
                proof {
                    assert(rope_text(*doc) =~= done + kept + c.inserted() + text.skip(
                        c.end as int,
                    ));
                    assert(done + kept + c.inserted() + splice(
                        text,
                        changes@.skip(i + 1),
                        c.end as nat,
                    ) =~= done + splice(text, changes@.skip(i as int), last as nat));
                    done = done + kept + c.inserted();
                }
                now_len = len_chars(doc);
                last = c.end;
                at = now_len - (len - last);
            }
            i += 1;
        }
        proof {
            assert(changes@.skip(i as int) =~= Seq::<Change>::empty());
        }
        true
    }
}

} // verus!
