//! The changes that turn a text into another and leave alone as many
//! chars as the two texts have in common.

use crate::rope::{char_at, len_chars, rope_text};
use crate::strings::chars_of;
use crate::transaction::{apply_changes, changes_separate, splice, Change};
use ropey::Rope;
use vstd::prelude::*;
use vstd::string::*;

verus! {

/// The number of chars that two texts share at their start.
pub open spec fn common_prefix(a: Seq<char>, b: Seq<char>) -> nat
    decreases a.len(),
{
    if a.len() > 0 && b.len() > 0 && a[0] == b[0] {
        1 + common_prefix(a.drop_first(), b.drop_first())
    } else {
        0
    }
}

/// Whether `w` can be got from `a` by leaving chars out.
pub open spec fn is_subsequence(w: Seq<char>, a: Seq<char>) -> bool
    decreases a.len(),
{
    if w.len() == 0 {
        true
    } else if a.len() == 0 {
        false
    } else if w.last() == a.last() {
        is_subsequence(w.drop_last(), a.drop_last())
    } else {
        is_subsequence(w, a.drop_last())
    }
}

/// The length of a longest text that can be got from `a` and from `b` by
/// leaving chars out: `lemma_lcs_is_longest` shows that no such text is
/// longer.
pub open spec fn lcs_len(a: Seq<char>, b: Seq<char>) -> nat
    decreases a.len() + b.len(),
{
    if a.len() == 0 || b.len() == 0 {
        0
    } else if a.last() == b.last() {
        lcs_len(a.drop_last(), b.drop_last()) + 1
    } else if lcs_len(a.drop_last(), b) >= lcs_len(a, b.drop_last()) {
        lcs_len(a.drop_last(), b)
    } else {
        lcs_len(a, b.drop_last())
    }
}

/// The number of chars that the changes take out.
pub open spec fn removed(changes: Seq<Change>) -> int
    decreases changes.len(),
{
    if changes.len() == 0 {
        0
    } else {
        (changes[0].end - changes[0].start) + removed(changes.drop_first())
    }
}

/// Whether `changes` turn `old` into `new` and take out no more than they
/// have to: they are separate, each does something, they make `new` of
/// `old`, they leave alone what the two share at their start, and the
/// chars of `old` that they leave alone are as many as a longest text
/// that `old` and `new` have in common.
pub open spec fn is_minimal_diff(changes: Seq<Change>, old: Seq<char>, new: Seq<char>) -> bool {
    &&& changes_separate(changes, old.len())
    &&& forall|k: int|
        0 <= k < changes.len() ==> !(#[trigger] changes[k]).is_noop() && changes[k].start
            >= common_prefix(old, new) && (changes[k].replacement is Some
            <==> changes[k].inserted().len() > 0)
    &&& apply_changes(old, changes) == new
    &&& old.len() - removed(changes) == lcs_len(old, new)
}

/// Two texts are the same up to the end of their common start, and
/// differ in the char behind it if both have one.
pub proof fn lemma_common_prefix(a: Seq<char>, b: Seq<char>)
    ensures
        common_prefix(a, b) <= a.len(),
        common_prefix(a, b) <= b.len(),
        a.take(common_prefix(a, b) as int) == b.take(common_prefix(a, b) as int),
        common_prefix(a, b) < a.len() && common_prefix(a, b) < b.len() ==> a[common_prefix(
            a,
            b,
        ) as int] != b[common_prefix(a, b) as int],
    decreases a.len(),
{
    let p = common_prefix(a, b);
    if a.len() > 0 && b.len() > 0 && a[0] == b[0] {
        lemma_common_prefix(a.drop_first(), b.drop_first());
        let q = common_prefix(a.drop_first(), b.drop_first());
        assert(a.take(p as int) =~= seq![a[0]] + a.drop_first().take(q as int));
        assert(b.take(p as int) =~= seq![b[0]] + b.drop_first().take(q as int));
        if p < a.len() && p < b.len() {
            assert(a[p as int] == a.drop_first()[q as int]);
            assert(b[p as int] == b.drop_first()[q as int]);
        }
    } else {
        assert(a.take(0) =~= b.take(0));
    }
}

/// What two texts have in common is no longer than either.
pub proof fn lemma_lcs_bound(a: Seq<char>, b: Seq<char>)
    ensures
        lcs_len(a, b) <= a.len(),
        lcs_len(a, b) <= b.len(),
    decreases a.len() + b.len(),
{
    if a.len() > 0 && b.len() > 0 {
        lemma_lcs_bound(a.drop_last(), b.drop_last());
        lemma_lcs_bound(a.drop_last(), b);
        lemma_lcs_bound(a, b.drop_last());
    }
}

/// No text that can be got from `a` and from `b` by leaving chars out is
/// longer than `lcs_len` says.
pub proof fn lemma_lcs_is_longest(w: Seq<char>, a: Seq<char>, b: Seq<char>)
    requires
        is_subsequence(w, a),
        is_subsequence(w, b),
    ensures
        w.len() <= lcs_len(a, b),
    decreases a.len() + b.len(),
{
    if w.len() > 0 {
        if a.last() == b.last() {
            if w.last() == a.last() {
                lemma_lcs_is_longest(w.drop_last(), a.drop_last(), b.drop_last());
            } else {
                lemma_lcs_is_longest(w, a.drop_last(), b.drop_last());
            }
        } else if w.last() != a.last() {
            lemma_lcs_is_longest(w, a.drop_last(), b);
        } else {
            lemma_lcs_is_longest(w, a, b.drop_last());
        }
    }
}

/// A char that stands in front of both texts is one more that they have
/// in common.
pub proof fn lemma_lcs_same_first(c: char, a: Seq<char>, b: Seq<char>)
    ensures
        lcs_len(seq![c] + a, seq![c] + b) == 1 + lcs_len(a, b),
    decreases a.len() + b.len(),
{
    let ca = seq![c] + a;
    let cb = seq![c] + b;
    let none = Seq::<char>::empty();
    assert(lcs_len(none, none) == 0);
    if a.len() == 0 {
        assert(ca =~= seq![c]);
        assert(ca.last() == c);
        assert(ca.drop_last() =~= none);
        assert(lcs_len(a, b) == 0);
        if b.len() == 0 {
            assert(cb =~= seq![c]);
            assert(cb.drop_last() =~= none);
            assert(lcs_len(ca, cb) == lcs_len(none, none) + 1);
        } else {
            assert(cb.last() == b.last());
            assert(cb.drop_last() =~= seq![c] + b.drop_last());
            lemma_lcs_same_first(c, a, b.drop_last());
            assert(lcs_len(a, b.drop_last()) == 0);
            assert(lcs_len(ca, cb.drop_last()) == 1);
            assert(lcs_len(ca.drop_last(), cb) == 0);
            assert(lcs_len(ca.drop_last(), cb.drop_last()) == 0);
        }
    } else if b.len() == 0 {
        assert(cb =~= seq![c]);
        assert(cb.last() == c);
        assert(cb.drop_last() =~= none);
        assert(lcs_len(a, b) == 0);
        assert(ca.last() == a.last());
        assert(ca.drop_last() =~= seq![c] + a.drop_last());
        lemma_lcs_same_first(c, a.drop_last(), b);
        assert(lcs_len(a.drop_last(), b) == 0);
        assert(lcs_len(ca.drop_last(), cb) == 1);
        assert(lcs_len(ca, cb.drop_last()) == 0);
        assert(lcs_len(ca.drop_last(), cb.drop_last()) == 0);
    } else {
        assert(ca.last() == a.last() && cb.last() == b.last());
        assert(ca.drop_last() =~= seq![c] + a.drop_last());
        assert(cb.drop_last() =~= seq![c] + b.drop_last());
        lemma_lcs_same_first(c, a.drop_last(), b.drop_last());
        lemma_lcs_same_first(c, a.drop_last(), b);
        lemma_lcs_same_first(c, a, b.drop_last());
        assert(lcs_len(ca.drop_last(), cb.drop_last()) == 1 + lcs_len(
            a.drop_last(),
            b.drop_last(),
        ));
        assert(lcs_len(ca.drop_last(), cb) == 1 + lcs_len(a.drop_last(), b));
        assert(lcs_len(ca, cb.drop_last()) == 1 + lcs_len(a, b.drop_last()));
    }
}

/// What two texts share at their start and at their end is part of what
/// they have in common, and the rest of that lies between.
pub proof fn lemma_lcs_common_ends(a: Seq<char>, b: Seq<char>, p: nat, s: nat)
    requires
        p + s <= a.len(),
        p + s <= b.len(),
        a.take(p as int) == b.take(p as int),
        a.skip(a.len() - s) == b.skip(b.len() - s),
    ensures
        lcs_len(a, b) == p + s + lcs_len(
            a.subrange(p as int, a.len() - s),
            b.subrange(p as int, b.len() - s),
        ),
    decreases s, p,
{
    if s > 0 {
        let a2 = a.drop_last();
        let b2 = b.drop_last();
        assert(a.last() == a.skip(a.len() - s)[s - 1]);
        assert(b.last() == b.skip(b.len() - s)[s - 1]);
        assert(a2.take(p as int) =~= a.take(p as int));
        assert(b2.take(p as int) =~= b.take(p as int));
        assert(a2.skip(a2.len() - (s - 1)) =~= a.skip(a.len() - s).drop_last());
        assert(b2.skip(b2.len() - (s - 1)) =~= b.skip(b.len() - s).drop_last());
        lemma_lcs_common_ends(a2, b2, p, (s - 1) as nat);
        assert(a2.subrange(p as int, a2.len() - (s - 1)) =~= a.subrange(p as int, a.len() - s));
        assert(b2.subrange(p as int, b2.len() - (s - 1)) =~= b.subrange(p as int, b.len() - s));
    } else if p > 0 {
        let a2 = a.drop_first();
        let b2 = b.drop_first();
        assert(a[0] == a.take(p as int)[0]);
        assert(b[0] == b.take(p as int)[0]);
        assert(a2.take(p - 1) =~= a.take(p as int).drop_first());
        assert(b2.take(p - 1) =~= b.take(p as int).drop_first());
        assert(a2.skip(a2.len() as int) =~= b2.skip(b2.len() as int));
        lemma_lcs_common_ends(a2, b2, (p - 1) as nat, 0);
        assert(a =~= seq![a[0]] + a2);
        assert(b =~= seq![a[0]] + b2);
        lemma_lcs_same_first(a[0], a2, b2);
        assert(a2.subrange(p - 1, a2.len() as int) =~= a.subrange(p as int, a.len() as int));
        assert(b2.subrange(p - 1, b2.len() as int) =~= b.subrange(p as int, b.len() as int));
    } else {
        assert(a.subrange(0, a.len() as int) =~= a);
        assert(b.subrange(0, b.len() as int) =~= b);
    }
}

/// What two texts have in common between `p` chars from their start and
/// `i` and `j` chars further on.
pub open spec fn lcs_between(a: Seq<char>, b: Seq<char>, p: int, i: int, j: int) -> nat {
    lcs_len(a.subrange(p, p + i), b.subrange(p, p + j))
}

proof fn lemma_lcs_between_step(a: Seq<char>, b: Seq<char>, p: int, i: int, j: int)
    requires
        0 <= p,
        0 <= i,
        0 <= j,
        p + i <= a.len(),
        p + j <= b.len(),
    ensures
        i == 0 || j == 0 ==> lcs_between(a, b, p, i, j) == 0,
        i > 0 && j > 0 && a[p + i - 1] == b[p + j - 1] ==> lcs_between(a, b, p, i, j)
            == lcs_between(a, b, p, i - 1, j - 1) + 1,
        i > 0 && j > 0 && a[p + i - 1] != b[p + j - 1] ==> lcs_between(a, b, p, i, j) == (
        if lcs_between(a, b, p, i - 1, j) >= lcs_between(a, b, p, i, j - 1) {
            lcs_between(a, b, p, i - 1, j)
        } else {
            lcs_between(a, b, p, i, j - 1)
        }),
        lcs_between(a, b, p, i, j) <= i,
        lcs_between(a, b, p, i, j) <= j,
{
    let x = a.subrange(p, p + i);
    let y = b.subrange(p, p + j);
    lemma_lcs_bound(x, y);
    if i > 0 && j > 0 {
        assert(x.last() == a[p + i - 1]);
        assert(y.last() == b[p + j - 1]);
        assert(x.drop_last() =~= a.subrange(p, p + i - 1));
        assert(y.drop_last() =~= b.subrange(p, p + j - 1));
    }
}

/// Whether the changes turn what stands in `old` from index `at` on into
/// what stands in `new` from index `jat` on, are separate, start at or
/// behind `at`, and each does something.
pub open spec fn turns_rest(
    old: Seq<char>,
    new: Seq<char>,
    changes: Seq<Change>,
    at: nat,
    jat: nat,
) -> bool {
    &&& splice(old, changes, at) == new.skip(jat as int)
    &&& changes_separate(changes, old.len())
    &&& forall|k: int|
        0 <= k < changes.len() ==> at <= (#[trigger] changes[k]).start && !changes[k].is_noop() && (
        changes[k].replacement is Some <==> changes[k].inserted().len() > 0)
}

/// A char that both texts hold before the changes stays.
proof fn lemma_keep_char(old: Seq<char>, new: Seq<char>, changes: Seq<Change>, at: nat, jat: nat)
    requires
        turns_rest(old, new, changes, at, jat),
        0 < at <= old.len(),
        0 < jat <= new.len(),
        old[at - 1] == new[jat - 1],
    ensures
        turns_rest(old, new, changes, (at - 1) as nat, (jat - 1) as nat),
{
    if changes.len() == 0 {
        assert(old.skip(at - 1) =~= seq![old[at - 1]] + old.skip(at as int));
    } else {
        assert(changes[0].start <= changes[0].end <= old.len());
        assert(old.subrange(at - 1, changes[0].start as int) =~= seq![old[at - 1]] + old.subrange(
            at as int,
            changes[0].start as int,
        ));
        assert(splice(old, changes, (at - 1) as nat) =~= seq![old[at - 1]] + splice(
            old,
            changes,
            at,
        ));
    }
    assert(new.skip(jat - 1) =~= seq![new[jat - 1]] + new.skip(jat as int));
}

/// A change in front of the others takes the stretch before them.
proof fn lemma_prepend_change(
    old: Seq<char>,
    new: Seq<char>,
    before: Seq<Change>,
    change: Change,
    jlo: nat,
    jhi: nat,
)
    requires
        turns_rest(old, new, before, change.end as nat, jhi),
        change.start <= change.end <= old.len(),
        jlo <= jhi <= new.len(),
        change.inserted() == new.subrange(jlo as int, jhi as int),
        change.start < change.end || jlo < jhi,
        change.replacement is Some <==> jlo < jhi,
    ensures
        turns_rest(old, new, seq![change] + before, change.start as nat, jlo),
        removed(seq![change] + before) == (change.end - change.start) + removed(before),
{
    let now = seq![change] + before;
    assert(now.drop_first() =~= before);
    assert(now[0] == change);
    assert(old.subrange(change.start as int, change.start as int) =~= Seq::<char>::empty());
    assert(new.skip(jlo as int) =~= new.subrange(jlo as int, jhi as int) + new.skip(jhi as int));
    assert(splice(old, now, change.start as nat) =~= new.skip(jlo as int));
    assert forall|k: int| 0 <= k < now.len() implies (#[trigger] now[k]).start <= now[k].end
        <= old.len() && change.start <= now[k].start && !now[k].is_noop() && (
    now[k].replacement is Some <==> now[k].inserted().len() > 0) by {
        if k > 0 {
            assert(now[k] == before[k - 1]);
        }
    }
    assert forall|k: int, l: int| 0 <= k < l < now.len() implies (#[trigger] now[k]).end <= (
    #[trigger] now[l]).start by {
        assert(now[l] == before[l - 1]);
        if k > 0 {
            assert(now[k] == before[k - 1]);
        }
    }
}

/// Changes that turn the rest behind what the texts share at their start
/// turn the whole.
proof fn lemma_turns_whole(old: Seq<char>, new: Seq<char>, changes: Seq<Change>, p: nat)
    requires
        turns_rest(old, new, changes, p, p),
        p <= old.len(),
        p <= new.len(),
        old.take(p as int) == new.take(p as int),
    ensures
        apply_changes(old, changes) == new,
{
    if changes.len() == 0 {
        assert(old.skip(0) =~= old.take(p as int) + old.skip(p as int));
    } else {
        assert(changes[0].start <= changes[0].end <= old.len());
        assert(old.subrange(0, changes[0].start as int) =~= old.take(p as int) + old.subrange(
            p as int,
            changes[0].start as int,
        ));
        assert(splice(old, changes, 0) =~= old.take(p as int) + splice(old, changes, p));
    }
    assert(new =~= new.take(p as int) + new.skip(p as int));
}

/// Whether `t` holds, for every `i` up to `n` and `j` up to `m`, what the
/// texts have in common between `p` chars from their start and `i` and
/// `j` chars further on.
#[verifier::opaque]
pub open spec fn is_lcs_table(
    t: Seq<Vec<usize>>,
    a: Seq<char>,
    b: Seq<char>,
    p: int,
    n: int,
    m: int,
) -> bool {
    &&& t.len() == n + 1
    &&& forall|i: int| 0 <= i <= n ==> (#[trigger] t[i])@.len() == m + 1
    &&& forall|i: int, j: int|
        0 <= i <= n && 0 <= j <= m ==> (#[trigger] t[i]@[j]) == lcs_between(a, b, p, i, j)
}

/// The chars of a rope, in order.
fn rope_chars(doc: &Rope) -> (chars: Vec<char>)
    ensures
        chars@ == rope_text(*doc),
{
    let len = len_chars(doc);
    let mut chars: Vec<char> = Vec::new();
    let mut i: usize = 0;
    while i < len
        invariant
            i <= len == rope_text(*doc).len(),
            chars@ == rope_text(*doc).take(i as int),
        decreases len - i,
    {
        chars.push(char_at(doc, i));
        assert(chars@ =~= rope_text(*doc).take(i + 1));
        i += 1;
    }
    assert(rope_text(*doc).take(len as int) =~= rope_text(*doc));
    chars
}

/// One more row of the table: the row behind `above`, which is row `i`.
fn lcs_row(a: &Vec<char>, b: &Vec<char>, p: usize, i: usize, m: usize, above: &Vec<usize>) -> (row:
    Vec<usize>)
    requires
        p + i < a@.len(),
        p + m <= b@.len(),
        above@.len() == m + 1,
        forall|k: int| 0 <= k <= m ==> (#[trigger] above@[k]) == lcs_between(
            a@,
            b@,
            p as int,
            i as int,
            k,
        ),
    ensures
        row@.len() == m + 1,
        forall|k: int| 0 <= k <= m ==> (#[trigger] row@[k]) == lcs_between(
            a@,
            b@,
            p as int,
            i + 1,
            k,
        ),
{
    let a_len = a.len();
    let b_len = b.len();
    let mut row: Vec<usize> = Vec::new();
    row.push(0);
    proof {
        lemma_lcs_between_step(a@, b@, p as int, i + 1, 0);
    }
    let mut j: usize = 0;
    while j < m
        invariant
            j <= m,
            p + i < a_len == a@.len(),
            p + m <= b_len == b@.len(),
            above@.len() == m + 1,
            forall|k: int| 0 <= k <= m ==> (#[trigger] above@[k]) == lcs_between(
                a@,
                b@,
                p as int,
                i as int,
                k,
            ),
            row@.len() == j + 1,
            forall|k: int| 0 <= k <= j ==> (#[trigger] row@[k]) == lcs_between(
                a@,
                b@,
                p as int,
                i + 1,
                k,
            ),
        decreases m - j,
    {
        proof {
            lemma_lcs_between_step(a@, b@, p as int, i + 1, j + 1);
            lemma_lcs_between_step(a@, b@, p as int, i as int, j as int);
            assert(above@[j as int] == lcs_between(a@, b@, p as int, i as int, j as int));
            assert(above@[j + 1] == lcs_between(a@, b@, p as int, i as int, j + 1));
            assert(row@[j as int] == lcs_between(a@, b@, p as int, i + 1, j as int));
        }
        let value = if a[p + i] == b[p + j] {
            above[j] + 1
        } else {
            let up = above[j + 1];
            let left = row[j];
            if up >= left {
                up
            } else {
                left
            }
        };
        row.push(value);
        j += 1;
    }
    row
}

/// The table of what the texts have in common between `p` chars from
/// their start and up to `n` and `m` chars further on.
fn lcs_table(a: &Vec<char>, b: &Vec<char>, p: usize, n: usize, m: usize) -> (t: Vec<Vec<usize>>)
    requires
        p + n <= a@.len(),
        p + m <= b@.len(),
    ensures
        is_lcs_table(t@, a@, b@, p as int, n as int, m as int),
{
    let mut t: Vec<Vec<usize>> = Vec::new();
    let mut first: Vec<usize> = Vec::new();
    first.push(0);
    proof {
        lemma_lcs_between_step(a@, b@, p as int, 0, 0);
    }
    let mut j: usize = 0;
    while j < m
        invariant
            j <= m,
            p + m <= b@.len(),
            p + n <= a@.len(),
            first@.len() == j + 1,
            forall|k: int| 0 <= k <= j ==> (#[trigger] first@[k]) == lcs_between(
                a@,
                b@,
                p as int,
                0,
                k,
            ),
        decreases m - j,
    {
        proof {
            lemma_lcs_between_step(a@, b@, p as int, 0, j + 1);
        }
        first.push(0);
        j += 1;
    }
    t.push(first);
    let mut i: usize = 0;
    while i < n
        invariant
            i <= n,
            p + n <= a@.len(),
            p + m <= b@.len(),
            t@.len() == i + 1,
            forall|r: int| 0 <= r <= i ==> (#[trigger] t@[r])@.len() == m + 1,
            forall|r: int, k: int|
                0 <= r <= i && 0 <= k <= m ==> (#[trigger] t@[r]@[k]) == lcs_between(
                    a@,
                    b@,
                    p as int,
                    r,
                    k,
                ),
        decreases n - i,
    {
        let ghost before = t@;
        assert forall|k: int| 0 <= k <= m implies (#[trigger] t@[i as int]@[k]) == lcs_between(
            a@,
            b@,
            p as int,
            i as int,
            k,
        ) by {}
        let row = lcs_row(a, b, p, i, m, &t[i]);
        t.push(row);
        proof {
            assert forall|r: int, k: int| 0 <= r <= i + 1 && 0 <= k <= m implies (
            #[trigger] t@[r]@[k]) == lcs_between(a@, b@, p as int, r, k) by {
                if r <= i {
                    assert(t@[r] == before[r]);
                    assert(before[r]@[k] == lcs_between(a@, b@, p as int, r, k));
                }
            }
            assert forall|r: int| 0 <= r <= i + 1 implies (#[trigger] t@[r])@.len() == m + 1 by {
                if r <= i {
                    assert(t@[r] == before[r]);
                }
            }
        }
        i += 1;
    }
    proof {
        reveal(is_lcs_table);
    }
    t
}

/// What the table holds at `i` and `j`.
fn table_at(
    t: &Vec<Vec<usize>>,
    i: usize,
    j: usize,
    Ghost(a): Ghost<Seq<char>>,
    Ghost(b): Ghost<Seq<char>>,
    Ghost(p): Ghost<int>,
    Ghost(n): Ghost<int>,
    Ghost(m): Ghost<int>,
) -> (v: usize)
    requires
        is_lcs_table(t@, a, b, p, n, m),
        i <= n,
        j <= m,
    ensures
        v == lcs_between(a, b, p, i as int, j as int),
{
    proof {
        reveal(is_lcs_table);
        assert(t@[i as int]@.len() == m + 1);
        assert(t@[i as int]@[j as int] == lcs_between(a, b, p, i as int, j as int));
    }
    t[i][j]
}

/// Where the stretch that has to change begins: from `hi_i` and `hi_j`,
/// where the chars before differ or one text is at its start, back to
/// where both texts hold the same char before, or to the start of both.
/// What the texts have in common up to there is what they have in
/// common up to `hi_i` and `hi_j`.
fn hunk_start(
    t: &Vec<Vec<usize>>,
    a: &Vec<char>,
    b: &Vec<char>,
    p: usize,
    n: usize,
    m: usize,
    hi_i: usize,
    hi_j: usize,
) -> (r: (usize, usize))
    requires
        is_lcs_table(t@, a@, b@, p as int, n as int, m as int),
        p + n <= a@.len(),
        p + m <= b@.len(),
        hi_i <= n,
        hi_j <= m,
        hi_i > 0 || hi_j > 0,
        !(hi_i > 0 && hi_j > 0 && a@[p + hi_i - 1] == b@[p + hi_j - 1]),
    ensures
        r.0 <= hi_i,
        r.1 <= hi_j,
        r.0 < hi_i || r.1 < hi_j,
        (r.0 == 0 && r.1 == 0) || (r.0 > 0 && r.1 > 0 && a@[p + r.0 - 1] == b@[p + r.1 - 1]),
        lcs_between(a@, b@, p as int, r.0 as int, r.1 as int) == lcs_between(
            a@,
            b@,
            p as int,
            hi_i as int,
            hi_j as int,
        ),
{
    let a_len = a.len();
    let b_len = b.len();
    let mut i = hi_i;
    let mut j = hi_j;
    while (i > 0 || j > 0) && !(i > 0 && j > 0 && a[p + i - 1] == b[p + j - 1])
        invariant
            i <= hi_i <= n,
            j <= hi_j <= m,
            p + n <= a_len == a@.len(),
            p + m <= b_len == b@.len(),
            is_lcs_table(t@, a@, b@, p as int, n as int, m as int),
            hi_i > 0 || hi_j > 0,
            !(hi_i > 0 && hi_j > 0 && a@[p + hi_i - 1] == b@[p + hi_j - 1]),
            lcs_between(a@, b@, p as int, i as int, j as int) == lcs_between(
                a@,
                b@,
                p as int,
                hi_i as int,
                hi_j as int,
            ),
        decreases i + j,
    {
        proof {
            lemma_lcs_between_step(a@, b@, p as int, i as int, j as int);
            if i > 0 {
                lemma_lcs_between_step(a@, b@, p as int, i - 1, j as int);
            }
            if j > 0 {
                lemma_lcs_between_step(a@, b@, p as int, i as int, j - 1);
            }
        }
        if j == 0 {
            i -= 1;
        } else if i == 0 {
            j -= 1;
        } else {
            let up = table_at(t, i - 1, j, Ghost(a@), Ghost(b@), Ghost(p as int), Ghost(n as int), Ghost(m as int));
            let left = table_at(t, i, j - 1, Ghost(a@), Ghost(b@), Ghost(p as int), Ghost(n as int), Ghost(m as int));
            if up >= left {
                i -= 1;
            } else {
                j -= 1;
            }
        }
    }
    (i, j)
}

/// Finds changes that turn the text of `doc` into `new_text` and leave
/// alone as many chars as the two texts have in common, among them what
/// the two share at their start.
///
/// What the texts share at their start and at their end is set aside at
/// once; the rest is compared char by char, in time and room of the
/// product of the two lengths that are left.
pub fn diff(doc: &Rope, new_text: &str) -> (changes: Vec<Change>)
    ensures
        is_minimal_diff(changes@, rope_text(*doc), new_text@),
{
    let ghost old = rope_text(*doc);
    let ghost new = new_text@;
    let old_chars = rope_chars(doc);
    let new_chars = chars_of(new_text);
    let n = old_chars.len();
    let m = new_chars.len();
    let mut p: usize = 0;
    assert(old.skip(0) =~= old && new.skip(0) =~= new);
    while p < n && p < m && old_chars[p] == new_chars[p]
        invariant
            p <= n == old.len(),
            p <= m == new.len(),
            old == old_chars@,
            new == new_chars@,
            common_prefix(old, new) == p + common_prefix(old.skip(p as int), new.skip(p as int)),
        decreases n - p,
    {
        assert(old.skip(p as int).drop_first() =~= old.skip(p + 1));
        assert(new.skip(p as int).drop_first() =~= new.skip(p + 1));
        p += 1;
    }
    proof {
        if p < n && p < m {
            assert(old.skip(p as int)[0] == old[p as int]);
            assert(new.skip(p as int)[0] == new[p as int]);
        }
        lemma_common_prefix(old, new);
    }
    let mut s: usize = 0;
    assert(old.skip(n as int) =~= new.skip(m as int));
    while s < n - p && s < m - p && old_chars[n - s - 1] == new_chars[m - s - 1]
        invariant
            p <= n == old.len(),
            p <= m == new.len(),
            s <= n - p,
            s <= m - p,
            old == old_chars@,
            new == new_chars@,
            old.skip(n - s) == new.skip(m - s),
        decreases n - p - s,
    {
        assert(old.skip(n - s - 1) =~= seq![old[n - s - 1]] + old.skip(n - s));
        assert(new.skip(m - s - 1) =~= seq![new[m - s - 1]] + new.skip(m - s));
        s += 1;
    }
    let n1 = n - p - s;
    let m1 = m - p - s;
    let t = lcs_table(&old_chars, &new_chars, p, n1, m1);
    let mut changes: Vec<Change> = Vec::new();
    let mut i: usize = n1;
    let mut j: usize = m1;
    proof {
        assert(splice(old, changes@, (p + i) as nat) == old.skip(p + i));
    }
    while i > 0 || j > 0
        invariant
            i <= n1,
            j <= m1,
            n1 == n - p - s,
            m1 == m - p - s,
            p + s <= n == old.len(),
            p + s <= m == new.len(),
            old == old_chars@,
            new == new_chars@,
            new == new_text@,
            is_lcs_table(t@, old, new, p as int, n1 as int, m1 as int),
            turns_rest(old, new, changes@, (p + i) as nat, (p + j) as nat),
            (n1 - i) - removed(changes@) + lcs_between(old, new, p as int, i as int, j as int)
                == lcs_between(old, new, p as int, n1 as int, m1 as int),
        decreases i + j,
    {
        if i > 0 && j > 0 && old_chars[p + i - 1] == new_chars[p + j - 1] {
            proof {
                lemma_lcs_between_step(old, new, p as int, i as int, j as int);
                lemma_keep_char(old, new, changes@, (p + i) as nat, (p + j) as nat);
            }
            i -= 1;
            j -= 1;
        } else {
            let (lo_i, lo_j) = hunk_start(&t, &old_chars, &new_chars, p, n1, m1, i, j);
            let replacement = if lo_j < j {
                Some(new_text.substring_char(p + lo_j, p + j).to_owned())
            } else {
                None
            };
            let change = Change::new(p + lo_i, p + i, replacement);
            let ghost before = changes@;
            changes.insert(0, change);
            proof {
                assert(changes@ =~= seq![change] + before);
                assert(change.inserted() =~= new.subrange(p + lo_j, p + j));
                lemma_prepend_change(old, new, before, change, (p + lo_j) as nat, (p + j) as nat);
            }
            i = lo_i;
            j = lo_j;
        }
    }
    proof {
        lemma_lcs_between_step(old, new, p as int, 0, 0);
        lemma_turns_whole(old, new, changes@, p as nat);
        lemma_lcs_common_ends(old, new, p as nat, s as nat);
    }
    changes
}

} // verus!
