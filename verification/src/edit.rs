//! The mathematical model of changes and of batches of them: edits of
//! sequences of chars, what it means to apply them, and what sorting a batch
//! brings about.

use crate::permutation::{lemma_permutation_reaches, rearranged_by};
use crate::text_range::Span;
use vstd::prelude::*;

verus! {

/// The mathematical model of a change: the span to delete and the chars to
/// put in its place.
pub struct Edit {
    pub delete: Span,
    pub insert: Seq<char>,
}

impl Edit {
    /// The edit can be applied to `text`: its span is well formed and lies
    /// inside the text.
    pub open spec fn fits(self, text: Seq<char>) -> bool {
        self.delete.wf() && self.delete.end <= text.len()
    }

    /// `text` with the deleted span replaced by the inserted chars.
    pub open spec fn apply(self, text: Seq<char>) -> Seq<char> {
        text.subrange(0, self.delete.start) + self.insert + text.subrange(
            self.delete.end,
            text.len() as int,
        )
    }

    /// The net change in length that the edit brings to a text, and so to
    /// every offset behind it.
    pub open spec fn offset(self) -> int {
        self.insert.len() - self.delete.len()
    }

    /// The same edit with its span moved by `delta`.
    pub open spec fn shift(self, delta: int) -> Edit {
        Edit { delete: self.delete.shift(delta), insert: self.insert }
    }

    /// The edit has an inverse on `text`: it fits the text, and what it
    /// inserts ends within 32 bits.
    pub open spec fn invertible(self, text: Seq<char>) -> bool {
        self.fits(text) && self.delete.start + self.insert.len() <= u32::MAX
    }

    /// The edit that undoes `self`, given the text that `self` is applied
    /// to: it deletes what `self` inserted and inserts what `self` deleted.
    pub open spec fn invert(self, text: Seq<char>) -> Edit {
        Edit {
            delete: Span {
                start: self.delete.start,
                end: self.delete.start + self.insert.len(),
            },
            insert: text.subrange(self.delete.start, self.delete.end),
        }
    }
}

/// The order that edits are sorted in: by the start of the deleted span,
/// then by its end.
pub open spec fn key_le(a: Span, b: Span) -> bool {
    a.start < b.start || (a.start == b.start && a.end <= b.end)
}

/// The edits stand in the order of their spans.
pub open spec fn sorted_by_key(edits: Seq<Edit>) -> bool {
    forall|i: int, j: int|
        #![trigger edits[i], edits[j]]
        0 <= i < j < edits.len() ==> key_le(edits[i].delete, edits[j].delete)
}

/// Under the rearrangement `p`, edits with the same span keep their order.
pub open spec fn keeps_ties(p: Seq<int>, after: Seq<Edit>) -> bool {
    forall|i: int, j: int|
        #![trigger after[i], after[j]]
        0 <= i < j < after.len() && after[i].delete == after[j].delete ==> p[i] < p[j]
}

/// `after` is `before` sorted by span; which of two edits with the same
/// span comes first is left open.
pub open spec fn sorted_from(before: Seq<Edit>, after: Seq<Edit>) -> bool {
    exists|p: Seq<int>| rearranged_by(p, before, after) && sorted_by_key(after)
}

/// `after` is `before` sorted by span, and edits with the same span stand
/// in the order they had in `before`.
pub open spec fn stably_sorted_from(before: Seq<Edit>, after: Seq<Edit>) -> bool {
    exists|p: Seq<int>|
        rearranged_by(p, before, after) && sorted_by_key(after) && keeps_ties(p, after)
}

/// No two edits of the batch overlap: of any two, one ends at or before the
/// start of the other.
pub open spec fn pairwise_disjoint(edits: Seq<Edit>) -> bool {
    forall|i: int, j: int|
        #![trigger edits[i], edits[j]]
        0 <= i < edits.len() && 0 <= j < edits.len() && i != j ==> !edits[i].delete.overlaps(
            edits[j].delete,
        )
}

/// The edits stand one behind the other: each ends at or before the start
/// of every later one.
pub open spec fn ordered_disjoint(edits: Seq<Edit>) -> bool {
    forall|i: int, j: int|
        #![trigger edits[i], edits[j]]
        0 <= i < j < edits.len() ==> edits[i].delete.precedes(edits[j].delete)
}

/// Every span of the batch is well formed.
pub open spec fn well_formed(edits: Seq<Edit>) -> bool {
    forall|i: int| 0 <= i < edits.len() ==> (#[trigger] edits[i]).delete.wf()
}

/// Every edit of the batch, taken by itself, fits `text`.
pub open spec fn all_fit(edits: Seq<Edit>, text: Seq<char>) -> bool {
    forall|i: int| 0 <= i < edits.len() ==> (#[trigger] edits[i]).fits(text)
}

/// An edit recorded against the text as it was before a batch can be applied
/// in the middle of the batch: `offset` is the net change in length that
/// the batch has made so far, and `text` is the text as it is now. The edit
/// moved by `offset` has to fit the text and to end within 32 bits, and the
/// count of what it inserts and the offset behind it have to fit in 64 bits.
pub open spec fn step_fits(edit: Edit, offset: int, text: Seq<char>) -> bool {
    &&& edit.shift(offset).fits(text)
    &&& edit.delete.end + offset <= u32::MAX
    &&& edit.insert.len() <= i64::MAX
    &&& offset + edit.offset() <= i64::MAX
}

/// Every edit of a batch can be applied in its turn, when the batch is
/// applied to `text` from the first edit to the last with the running
/// offset starting at `offset`.
pub open spec fn each_fits(edits: Seq<Edit>, offset: int, text: Seq<char>) -> bool
    decreases edits.len(),
{
    edits.len() == 0 || {
        &&& step_fits(edits[0], offset, text)
        &&& each_fits(
            edits.drop_first(),
            offset + edits[0].offset(),
            edits[0].shift(offset).apply(text),
        )
    }
}

/// The text that results when a batch is applied to `text` from the first
/// edit to the last. Each edit is moved by the running offset, which starts
/// at `offset`, and is then applied; its own net change in length is added
/// to the running offset for the edits behind it.
pub open spec fn apply_each(edits: Seq<Edit>, offset: int, text: Seq<char>) -> Seq<char>
    decreases edits.len(),
{
    if edits.len() == 0 {
        text
    } else {
        apply_each(
            edits.drop_first(),
            offset + edits[0].offset(),
            edits[0].shift(offset).apply(text),
        )
    }
}

/// The text with every span of a batch replaced at once, all spans being
/// offsets into `text` as it stands: the edits are applied from the last to
/// the first, so that no edit moves the span of one still to come.
pub open spec fn splice(edits: Seq<Edit>, text: Seq<char>) -> Seq<char>
    decreases edits.len(),
{
    if edits.len() == 0 {
        text
    } else {
        splice(edits.drop_last(), edits.last().apply(text))
    }
}

/// The number of chars that the edits of a batch insert, taken together.
pub open spec fn inserted_len(edits: Seq<Edit>) -> int
    decreases edits.len(),
{
    if edits.len() == 0 {
        0
    } else {
        edits[0].insert.len() + inserted_len(edits.drop_first())
    }
}

/// The batch with every span moved by `delta`.
pub open spec fn shift_all(edits: Seq<Edit>, delta: int) -> Seq<Edit> {
    edits.map_values(|e: Edit| e.shift(delta))
}

/// The edits, each moved by `offset`, stand one behind the other inside
/// `text`.
pub open spec fn ordered_inside(edits: Seq<Edit>, offset: int, text: Seq<char>) -> bool {
    &&& well_formed(edits)
    &&& ordered_disjoint(edits)
    &&& all_fit(shift_all(edits, offset), text)
}

/// Rearranging a batch does not change whether its edits are pairwise
/// disjoint.
pub proof fn lemma_rearranged_disjoint(p: Seq<int>, before: Seq<Edit>, after: Seq<Edit>)
    requires
        rearranged_by(p, before, after),
    ensures
        pairwise_disjoint(before) == pairwise_disjoint(after),
{
    if pairwise_disjoint(before) {
        assert forall|i: int, j: int|
            #![trigger after[i], after[j]]
            0 <= i < after.len() && 0 <= j < after.len() && i != j
            implies !after[i].delete.overlaps(after[j].delete) by {
            assert(after[i] == before[p[i]]);
            assert(after[j] == before[p[j]]);
            assert(p[i] != p[j]);
        }
    }
    if pairwise_disjoint(after) {
        assert forall|a: int, b: int|
            #![trigger before[a], before[b]]
            0 <= a < before.len() && 0 <= b < before.len() && a != b
            implies !before[a].delete.overlaps(before[b].delete) by {
            let i = lemma_permutation_reaches(p, a);
            let j = lemma_permutation_reaches(p, b);
            assert(after[i] == before[p[i]]);
            assert(after[j] == before[p[j]]);
        }
    }
}

/// In a batch of pairwise disjoint edits, two edits with the same span
/// delete nothing: only the order of insertions at one point is left open
/// when such a batch is sorted.
pub proof fn lemma_ties_are_empty(edits: Seq<Edit>, i: int, j: int)
    requires
        well_formed(edits),
        pairwise_disjoint(edits),
        0 <= i < edits.len(),
        0 <= j < edits.len(),
        i != j,
        edits[i].delete == edits[j].delete,
    ensures
        edits[i].delete.is_empty(),
{
    assert(!edits[i].delete.overlaps(edits[j].delete));
    assert(edits[i].delete.wf());
}

/// Edits that are sorted by span and pairwise disjoint stand one behind
/// the other.
pub proof fn lemma_sorted_disjoint_is_ordered(edits: Seq<Edit>)
    requires
        well_formed(edits),
        sorted_by_key(edits),
        pairwise_disjoint(edits),
    ensures
        ordered_disjoint(edits),
{
    assert forall|i: int, j: int|
        #![trigger edits[i], edits[j]]
        0 <= i < j < edits.len() implies edits[i].delete.precedes(edits[j].delete) by {
        assert(key_le(edits[i].delete, edits[j].delete));
        assert(!edits[i].delete.overlaps(edits[j].delete));
        assert(edits[i].delete.wf() && edits[j].delete.wf());
    }
}

proof fn lemma_inserted_len_nonnegative(edits: Seq<Edit>)
    ensures
        0 <= inserted_len(edits),
    decreases edits.len(),
{
    if edits.len() > 0 {
        lemma_inserted_len_nonnegative(edits.drop_first());
    }
}

proof fn lemma_inserted_len_without(edits: Seq<Edit>, i: int)
    requires
        0 <= i < edits.len(),
    ensures
        inserted_len(edits) == edits[i].insert.len() + inserted_len(edits.remove(i)),
    decreases edits.len(),
{
    if i == 0 {
        assert(edits.remove(0) =~= edits.drop_first());
    } else {
        lemma_inserted_len_without(edits.drop_first(), i - 1);
        assert(edits.remove(i).drop_first() =~= edits.drop_first().remove(i - 1));
    }
}

/// Rearranging a batch does not change how much it inserts.
pub proof fn lemma_inserted_len_rearranged(p: Seq<int>, before: Seq<Edit>, after: Seq<Edit>)
    requires
        rearranged_by(p, before, after),
    ensures
        inserted_len(after) == inserted_len(before),
    decreases before.len(),
{
    if before.len() > 0 {
        // Take the last edit out of `before`, and out of `after` where it
        // went; what is left is a rearrangement again.
        let last = before.len() - 1;
        let i = lemma_permutation_reaches(p, last);
        let fewer = p.remove(i);
        let rest = after.remove(i);
        assert forall|a: int|
            0 <= a < fewer.len() implies 0 <= #[trigger] fewer[a] < fewer.len() by {
            let b = if a < i { a } else { a + 1 };
            assert(fewer[a] == p[b]);
            assert(p[b] != p[i]);
        }
        assert forall|a: int, b: int| 0 <= a < b < fewer.len() implies fewer[a] != fewer[b] by {
            let a1 = if a < i { a } else { a + 1 };
            let b1 = if b < i { b } else { b + 1 };
            assert(fewer[a] == p[a1] && fewer[b] == p[b1]);
        }
        assert forall|a: int|
            0 <= a < rest.len() implies #[trigger] rest[a] == before.drop_last()[fewer[a]] by {
            let b = if a < i { a } else { a + 1 };
            assert(rest[a] == after[b]);
            assert(fewer[a] == p[b]);
        }
        lemma_inserted_len_rearranged(fewer, before.drop_last(), rest);
        lemma_inserted_len_without(after, i);
        lemma_inserted_len_without(before, last);
        assert(before.remove(last) =~= before.drop_last());
        assert(after[i] == before[p[i]]);
    } else {
        assert(after.len() == 0);
    }
}

/// Of two edits of which the first ends at or before the start of the
/// second, either can be applied first: applied second, the later edit is
/// moved by the net change in length of the earlier one.
pub proof fn lemma_apply_commutes(first: Edit, second: Edit, text: Seq<char>)
    requires
        first.delete.wf(),
        second.fits(text),
        first.delete.precedes(second.delete),
    ensures
        first.apply(second.apply(text)) == second.shift(first.offset()).apply(first.apply(text)),
{
    let a = first.delete;
    let b = second.delete;
    let n = text.len() as int;
    let x = second.apply(text);
    let y = first.apply(text);
    let d = first.offset();
    assert(x.subrange(0, a.start) =~= text.subrange(0, a.start));
    assert(x.subrange(a.end, x.len() as int) =~= text.subrange(a.end, b.start) + second.insert
        + text.subrange(b.end, n));
    assert(y.subrange(0, b.start + d) =~= text.subrange(0, a.start) + first.insert
        + text.subrange(a.end, b.start));
    assert(y.subrange(b.end + d, y.len() as int) =~= text.subrange(b.end, n));
    assert(first.apply(x) =~= second.shift(d).apply(y));
}

/// When the first edit of a batch has been applied, the edits behind it
/// stand inside the new text, moved by its net change in length as well;
/// when the last has been applied, so do the edits before it, moved as they
/// were.
proof fn lemma_ordered_inside_rest(edits: Seq<Edit>, offset: int, text: Seq<char>)
    requires
        ordered_inside(edits, offset, text),
        edits.len() > 0,
    ensures
        ordered_inside(
            edits.drop_first(),
            offset + edits[0].offset(),
            edits[0].shift(offset).apply(text),
        ),
        ordered_inside(edits.drop_last(), offset, edits.last().shift(offset).apply(text)),
{
    let moved = shift_all(edits, offset);
    let first = edits[0];
    let rest = edits.drop_first();
    let rest_moved = shift_all(rest, offset + first.offset());
    assert(first.delete.wf() && moved[0].fits(text));
    assert forall|i: int| 0 <= i < rest.len() implies (#[trigger] rest[i]).delete.wf() by {
        assert(rest[i] == edits[i + 1]);
    }
    assert forall|i: int| 0 <= i < rest_moved.len() implies (#[trigger] rest_moved[i]).fits(
        first.shift(offset).apply(text),
    ) by {
        assert(rest[i] == edits[i + 1]);
        assert(edits[0].delete.precedes(edits[i + 1].delete));
        assert(moved[i + 1].fits(text));
    }
    assert forall|i: int, j: int|
        #![trigger rest[i], rest[j]]
        0 <= i < j < rest.len() implies rest[i].delete.precedes(rest[j].delete) by {
        assert(edits[i + 1].delete.precedes(edits[j + 1].delete));
    }
    let last = edits.last();
    let front = edits.drop_last();
    let front_moved = shift_all(front, offset);
    assert(last.delete.wf() && moved[edits.len() - 1].fits(text));
    assert forall|i: int| 0 <= i < front.len() implies (#[trigger] front[i]).delete.wf() by {
        assert(front[i] == edits[i]);
    }
    assert forall|i: int| 0 <= i < front_moved.len() implies (#[trigger] front_moved[i]).fits(
        last.shift(offset).apply(text),
    ) by {
        assert(front[i] == edits[i]);
        assert(edits[i].delete.precedes(edits[edits.len() - 1].delete));
        assert(moved[i].fits(text));
    }
    assert forall|i: int, j: int|
        #![trigger front[i], front[j]]
        0 <= i < j < front.len() implies front[i].delete.precedes(front[j].delete) by {
        assert(edits[i].delete.precedes(edits[j].delete));
    }
}

/// A batch whose edits, moved by the running offset, stand one behind the
/// other inside `text` can be applied to it from there on.
proof fn lemma_ordered_batch_applies_from(edits: Seq<Edit>, offset: int, text: Seq<char>)
    requires
        ordered_inside(edits, offset, text),
        text.len() + inserted_len(edits) <= u32::MAX,
        offset <= text.len(),
    ensures
        each_fits(edits, offset, text),
    decreases edits.len(),
{
    if edits.len() > 0 {
        let first = edits[0];
        let rest = edits.drop_first();
        assert(first.delete.wf() && shift_all(edits, offset)[0].fits(text));
        lemma_inserted_len_nonnegative(rest);
        assert(step_fits(first, offset, text));
        lemma_ordered_inside_rest(edits, offset, text);
        lemma_ordered_batch_applies_from(
            rest,
            offset + first.offset(),
            first.shift(offset).apply(text),
        );
    }
}

/// Replacing every span at once can start with the first edit as well as
/// with the last: the edits behind the first are then moved by its net
/// change in length.
proof fn lemma_splice_from_the_front(edits: Seq<Edit>, text: Seq<char>)
    requires
        ordered_inside(edits, 0, text),
        edits.len() > 0,
    ensures
        splice(edits, text) == splice(
            shift_all(edits.drop_first(), edits[0].offset()),
            edits[0].apply(text),
        ),
    decreases edits.len(),
{
    let first = edits[0];
    let d = first.offset();
    let moved = shift_all(edits.drop_first(), d);
    if edits.len() == 1 {
        assert(edits.drop_last().len() == 0);
        assert(moved.len() == 0);
        assert(splice(edits.drop_last(), first.apply(text)) == first.apply(text));
    } else {
        let last = edits.last();
        let front = edits.drop_last();
        assert(last.shift(0) == last);
        assert(shift_all(edits, 0)[edits.len() - 1].fits(text));
        lemma_ordered_inside_rest(edits, 0, text);
        lemma_splice_from_the_front(front, last.apply(text));
        assert(front[0] == first);
        assert(first.delete.precedes(edits[edits.len() - 1].delete));
        assert(first.delete.wf());
        lemma_apply_commutes(first, last, text);
        assert(moved.last() == last.shift(d));
        assert(moved.drop_last() =~= shift_all(front.drop_first(), d));
    }
}

proof fn lemma_apply_each_is_splice_from(edits: Seq<Edit>, offset: int, text: Seq<char>)
    requires
        ordered_inside(edits, offset, text),
    ensures
        apply_each(edits, offset, text) == splice(shift_all(edits, offset), text),
    decreases edits.len(),
{
    let moved = shift_all(edits, offset);
    if edits.len() > 0 {
        let first = edits[0];
        let rest = edits.drop_first();
        lemma_ordered_inside_rest(edits, offset, text);
        lemma_apply_each_is_splice_from(
            rest,
            offset + first.offset(),
            first.shift(offset).apply(text),
        );
        assert(ordered_inside(moved, 0, text)) by {
            assert forall|i: int|
                0 <= i < moved.len() implies (#[trigger] moved[i]).delete.wf() by {
                assert(moved[i].fits(text));
            }
            assert forall|i: int, j: int|
                #![trigger moved[i], moved[j]]
                0 <= i < j < moved.len() implies moved[i].delete.precedes(moved[j].delete) by {
                assert(edits[i].delete.precedes(edits[j].delete));
            }
            assert forall|i: int| 0 <= i < moved.len() implies (#[trigger] shift_all(
                moved,
                0,
            )[i]).fits(text) by {
                assert(moved[i].fits(text));
                assert(moved[i].shift(0) == moved[i]);
            }
        }
        lemma_splice_from_the_front(moved, text);
        assert(moved[0] == first.shift(offset));
        assert(shift_all(moved.drop_first(), moved[0].offset()) =~= shift_all(
            rest,
            offset + first.offset(),
        ));
    } else {
        assert(moved.len() == 0);
    }
}

proof fn lemma_shift_all_by_zero(edits: Seq<Edit>)
    ensures
        shift_all(edits, 0) == edits,
{
    assert forall|i: int| 0 <= i < edits.len() implies shift_all(edits, 0)[i] == edits[i] by {
        assert(edits[i].shift(0) == edits[i]);
    }
    assert(shift_all(edits, 0) =~= edits);
}

/// A batch whose edits stand one behind the other inside `text` can be
/// applied to it, so long as the text together with all that the batch
/// inserts stays within 32 bits.
pub proof fn lemma_ordered_batch_applies(edits: Seq<Edit>, text: Seq<char>)
    requires
        ordered_disjoint(edits),
        all_fit(edits, text),
        text.len() + inserted_len(edits) <= u32::MAX,
    ensures
        each_fits(edits, 0, text),
{
    lemma_shift_all_by_zero(edits);
    assert forall|i: int| 0 <= i < edits.len() implies (#[trigger] edits[i]).delete.wf() by {
        assert(edits[i].fits(text));
    }
    lemma_ordered_batch_applies_from(edits, 0, text);
}

/// For a batch whose edits stand one behind the other inside `text`,
/// applying them in turn, each moved by the net change in length of those
/// before it, gives the text with every span replaced at once.
pub proof fn lemma_apply_each_is_splice(edits: Seq<Edit>, text: Seq<char>)
    requires
        ordered_disjoint(edits),
        all_fit(edits, text),
    ensures
        apply_each(edits, 0, text) == splice(edits, text),
{
    lemma_shift_all_by_zero(edits);
    assert forall|i: int| 0 <= i < edits.len() implies (#[trigger] edits[i]).delete.wf() by {
        assert(edits[i].fits(text));
    }
    lemma_apply_each_is_splice_from(edits, 0, text);
}

/// A batch sorted from edits that are pairwise disjoint and fit `text` can
/// be applied to it, so long as the text together with all that the edits
/// insert stays within 32 bits; and applying it, each edit in its turn and
/// moved by the net change in length of those before it, gives the text
/// with every span replaced at once.
pub proof fn lemma_built_batch_applies(pushed: Seq<Edit>, built: Seq<Edit>, text: Seq<char>)
    requires
        pairwise_disjoint(pushed),
        all_fit(pushed, text),
        text.len() + inserted_len(pushed) <= u32::MAX,
        sorted_from(pushed, built),
    ensures
        ordered_disjoint(built),
        each_fits(built, 0, text),
        apply_each(built, 0, text) == splice(built, text),
{
    let p = choose|p: Seq<int>| rearranged_by(p, pushed, built) && sorted_by_key(built);
    assert forall|i: int| 0 <= i < built.len() implies (#[trigger] built[i]).fits(text) by {
        assert(built[i] == pushed[p[i]]);
        assert(pushed[p[i]].fits(text));
    }
    assert forall|i: int| 0 <= i < built.len() implies (#[trigger] built[i]).delete.wf() by {
        assert(built[i].fits(text));
    }
    lemma_rearranged_disjoint(p, pushed, built);
    lemma_sorted_disjoint_is_ordered(built);
    lemma_inserted_len_rearranged(p, pushed, built);
    lemma_ordered_batch_applies(built, text);
    lemma_apply_each_is_splice(built, text);
}

} // verus!
