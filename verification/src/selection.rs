//! Ranges of chars that the editor has selected.

use crate::rope::rope_text;
use ropey::Rope;
use unicode_segmentation::GraphemeCursor;
use vstd::prelude::*;

verus! {

/// The nearest boundary between extended grapheme clusters, by the rules
/// of Unicode, that lies before char index `c` of `text`, as a char index.
pub uninterp spec fn grapheme_before(text: Seq<char>, c: nat) -> nat;

/// `GraphemeCursor::prev_boundary` on the whole text of the rope, from
/// char index `c`: the nearest boundary between grapheme clusters that
/// lies before `c`. Given the whole text, the cursor finds one for every
/// index but 0, at least one char before the index. The cursor counts
/// in bytes; the rope turns the char index into the byte offset of that
/// char, and the byte offset of the boundary into a char index.
#[verifier::external_body]
pub(crate) fn prev_grapheme_boundary(doc: &Rope, c: usize) -> (r: usize)
    requires
        0 < c <= rope_text(*doc).len(),
    ensures
        r == grapheme_before(rope_text(*doc), c as nat),
        r < c,
{
    let text = String::from(doc);
    let mut cursor = GraphemeCursor::new(doc.char_to_byte(c), text.len(), true);
    match cursor.prev_boundary(&text, 0) {
        Ok(Some(byte)) => doc.byte_to_char(byte),
        _ => 0,
    }
}

/// The char on which the cursor of a range stands: its head, or for a
/// range that runs forward the start of the grapheme cluster before its
/// head.
pub open spec fn cursor_of(text: Seq<char>, range: Range) -> nat {
    if range.head > range.anchor {
        grapheme_before(text, range.head as nat)
    } else {
        range.head as nat
    }
}

/// A selected stretch of a document in char indices: `anchor` is where the
/// selection began, `head` is the end that moves.
#[derive(Clone, Copy, Debug, PartialEq, Eq, Structural, Hash)]
pub struct Range {
    pub anchor: usize,
    pub head: usize,
}

impl Range {
    pub fn new(anchor: usize, head: usize) -> (r: Range)
        ensures
            r.anchor == anchor,
            r.head == head,
    {
        Range { anchor, head }
    }

    /// A selection of no width at `head`.
    pub fn point(head: usize) -> (r: Range)
        ensures
            r.anchor == head,
            r.head == head,
    {
        Range { anchor: head, head }
    }

    /// The smaller of the two ends.
    pub open spec fn spec_from(&self) -> usize {
        if self.anchor <= self.head {
            self.anchor
        } else {
            self.head
        }
    }

    /// The larger of the two ends.
    pub open spec fn spec_to(&self) -> usize {
        if self.anchor <= self.head {
            self.head
        } else {
            self.anchor
        }
    }

    /// The char on which the cursor of the range stands in `doc`. A range
    /// that runs forward has to end within the document.
    pub fn cursor(&self, doc: &Rope) -> (c: usize)
        requires
            self.head > self.anchor ==> self.head <= rope_text(*doc).len(),
        ensures
            c == cursor_of(rope_text(*doc), *self),
            c <= self.head,
    {
        if self.head > self.anchor {
            prev_grapheme_boundary(doc, self.head)
        } else {
            self.head
        }
    }

    #[verifier::when_used_as_spec(spec_from)]
    pub fn from(&self) -> (r: usize)
        ensures
            r == self.spec_from(),
    {
        if self.anchor <= self.head {
            self.anchor
        } else {
            self.head
        }
    }

    #[verifier::when_used_as_spec(spec_to)]
    pub fn to(&self) -> (r: usize)
        ensures
            r == self.spec_to(),
    {
        if self.anchor <= self.head {
            self.head
        } else {
            self.anchor
        }
    }
}

/// The ranges that are selected at one time, one of them the primary one.
#[derive(Clone, Debug, PartialEq, Eq)]
pub struct Selection {
    pub ranges: Vec<Range>,
    pub primary_index: usize,
}

impl Selection {
    /// A selection holds at least one range, and its primary index names
    /// one of its ranges.
    pub open spec fn wf(self) -> bool {
        self.primary_index < self.ranges.len()
    }

    pub fn new(ranges: Vec<Range>, primary_index: usize) -> (s: Selection)
        requires
            primary_index < ranges.len(),
        ensures
            s.wf(),
            s.ranges == ranges,
            s.primary_index == primary_index,
    {
        Selection { ranges, primary_index }
    }

    /// The selection of the one range from `anchor` to `head`.
    pub fn single(anchor: usize, head: usize) -> (s: Selection)
        ensures
            s.wf(),
            s.ranges@ == seq![Range { anchor, head }],
            s.primary_index == 0,
    {
        let mut ranges = Vec::new();
        ranges.push(Range::new(anchor, head));
        Selection { ranges, primary_index: 0 }
    }

    /// The selection of one range of no width at `pos`.
    pub fn point(pos: usize) -> (s: Selection)
        ensures
            s.wf(),
            s.ranges@ == seq![Range { anchor: pos, head: pos }],
            s.primary_index == 0,
    {
        Selection::single(pos, pos)
    }

    pub fn primary(&self) -> (r: Range)
        requires
            self.wf(),
        ensures
            r == self.ranges[self.primary_index as int],
    {
        self.ranges[self.primary_index]
    }
}

} // verus!
