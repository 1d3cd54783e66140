//! Atomic changes to a text buffer, and ordered batches of them.

use crate::buffer::{rope_insert, rope_len, rope_remove, rope_text};
use crate::edit::{
    apply_each, each_fits, key_le, lemma_rearranged_disjoint, ordered_disjoint,
    pairwise_disjoint, sorted_by_key, sorted_from, stably_sorted_from, well_formed, Edit,
};
use crate::permutation::rearranged_by;
use crate::text_range::TextRange;
use ropey::Rope;
use vstd::prelude::*;
use vstd::string::StrSliceExecFns;

verus! {

/// Replaces the text of the range `delete` by `insert`.
#[derive(Debug, Clone, PartialEq, Eq)]
pub struct Change {
    pub delete: TextRange,
    pub insert: String,
}

impl View for Change {
    type V = Edit;

    open spec fn view(&self) -> Edit {
        Edit { delete: self.delete@, insert: self.insert@ }
    }
}

impl Change {
    /// The change that replaces the text of `delete` by `insert`.
    pub fn new(delete: TextRange, insert: String) -> (c: Change)
        ensures
            c@ == (Edit { delete: delete@, insert: insert@ }),
    {
        Change { delete, insert }
    }

    /// Tells whether the change can be applied to `text`: whether its range
    /// lies inside the text.
    pub fn can_apply(&self, text: &Rope) -> (b: bool)
        ensures
            b == self@.fits(rope_text(*text)),
    {
        proof {
            use_type_invariant(&self.delete);
        }
        self.delete.end() <= rope_len(text)
    }

    /// Removes the range `delete` from `text` and inserts `insert` where it
    /// started. The range has to lie inside the text.
    pub fn apply(&self, text: &mut Rope)
        requires
            self@.fits(rope_text(*old(text))),
        ensures
            rope_text(*final(text)) == self@.apply(rope_text(*old(text))),
    {
        proof {
            use_type_invariant(&self.delete);
        }
        let ghost before = rope_text(*text);
        rope_remove(text, self.delete.start(), self.delete.end());
        let ghost between = rope_text(*text);
        rope_insert(text, self.delete.start(), self.insert.as_str());
        proof {
            let s = self@.delete.start;
            assert(between.subrange(0, s) =~= before.subrange(0, s));
            assert(between.subrange(s, between.len() as int) =~= before.subrange(
                self@.delete.end,
                before.len() as int,
            ));
        }
    }

    /// Applies the change to `text` if it can be applied, and tells whether
    /// it did; a change that cannot be applied leaves the text as it is.
    pub fn try_apply(&self, text: &mut Rope) -> (applied: bool)
        ensures
            applied == self@.fits(rope_text(*old(text))),
            applied ==> rope_text(*final(text)) == self@.apply(rope_text(*old(text))),
            !applied ==> rope_text(*final(text)) == rope_text(*old(text)),
    {
        if self.can_apply(text) {
            self.apply(text);
            true
        } else {
            false
        }
    }

    /// The change with its range moved by `offset`. The moved range has to
    /// start at or after zero and to end within 32 bits.
    pub fn add_offset(self, offset: i64) -> (c: Change)
        requires
            0 <= self@.delete.start + offset,
            self@.delete.end + offset <= u32::MAX,
        ensures
            c@ == self@.shift(offset as int),
    {
        proof {
            use_type_invariant(&self.delete);
        }
        let start = (self.delete.start() as i64 + offset) as usize;
        let end = (self.delete.end() as i64 + offset) as usize;
        Change { delete: TextRange::new(start, end), insert: self.insert }
    }

    /// The net change in length that this change brings to a text: the
    /// number of chars it inserts less the number it deletes.
    pub fn offset(&self) -> (o: i64)
        requires
            self@.insert.len() <= i64::MAX,
        ensures
            o == self@.offset(),
    {
        proof {
            use_type_invariant(&self.delete);
        }
        self.insert.as_str().unicode_len() as i64 - self.delete.len() as i64
    }

    /// The change that undoes this one, given the text as it is before this
    /// change is applied. This change has to fit that text, and what it
    /// inserts has to end within 32 bits.
    pub fn invert(&self, original_text: &Rope) -> (c: Change)
        requires
            self@.invertible(rope_text(*original_text)),
        ensures
            c@ == self@.invert(rope_text(*original_text)),
    {
        proof {
            use_type_invariant(&self.delete);
        }
        let insert = self.delete.slice(original_text);
        let start = self.delete.start();
        let delete = TextRange::new(start, start + self.insert.as_str().unicode_len());
        Change { delete, insert }
    }

    /// The change that undoes this one, as `invert` gives it, or `None`
    /// when this change does not fit the text or what it inserts does not
    /// end within 32 bits.
    pub fn try_invert(&self, original_text: &Rope) -> (c: Option<Change>)
        ensures
            self@.invertible(rope_text(*original_text)) ==> c is Some && c.unwrap()@
                == self@.invert(rope_text(*original_text)),
            !self@.invertible(rope_text(*original_text)) ==> c is None,
    {
        proof {
            use_type_invariant(&self.delete);
        }
        let count = self.insert.as_str().unicode_len();
        if self.can_apply(original_text) && count <= u32::MAX as usize - self.delete.start() {
            Some(self.invert(original_text))
        } else {
            None
        }
    }
}

/// The views of a sequence of changes.
pub open spec fn edits_of(changes: Seq<Change>) -> Seq<Edit> {
    changes.map_values(|c: Change| c@)
}

/// The key that changes are sorted by.
fn sort_key(change: &Change) -> (k: (usize, usize))
    ensures
        k.0 == change@.delete.start,
        k.1 == change@.delete.end,
{
    (change.delete.start(), change.delete.end())
}

/// `slice::sort_by_key` with the start and end of the deleted range as the
/// key: the changes are sorted by that key, and changes with equal keys keep
/// their order.
#[verifier::external_body]
fn sort_by_key(changes: &mut Vec<Change>)
    ensures
        stably_sorted_from(edits_of(old(changes)@), edits_of(final(changes)@)),
{
    changes.sort_by_key(sort_key)
}

/// `slice::sort_unstable_by_key` with the start and end of the deleted
/// range as the key: the changes are sorted by that key, and changes with
/// equal keys come in any order.
#[verifier::external_body]
fn sort_unstable_by_key(changes: &mut Vec<Change>)
    ensures
        sorted_from(edits_of(old(changes)@), edits_of(final(changes)@)),
{
    changes.sort_unstable_by_key(sort_key)
}

/// Sorts `changes` by the start and end of their deleted ranges and tells
/// whether they are pairwise disjoint. With `unstable`, changes with the
/// same range come in any order; without it they keep their order.
pub fn check_disjoint_impl(changes: &mut Vec<Change>, unstable: bool) -> (b: bool)
    ensures
        unstable ==> sorted_from(edits_of(old(changes)@), edits_of(final(changes)@)),
        !unstable ==> stably_sorted_from(edits_of(old(changes)@), edits_of(final(changes)@)),
        b == pairwise_disjoint(edits_of(old(changes)@)),
        b ==> ordered_disjoint(edits_of(final(changes)@)) && well_formed(edits_of(final(changes)@)),
{
    let ghost before = edits_of(changes@);
    if unstable {
        sort_unstable_by_key(changes);
    } else {
        sort_by_key(changes);
    }
    let ghost after = edits_of(changes@);
    let ghost p = choose|p: Seq<int>| rearranged_by(p, before, after) && sorted_by_key(after);
    proof {
        lemma_rearranged_disjoint(p, before, after);
    }
    let mut i: usize = 0;
    while i < changes.len()
        invariant
            i <= changes.len(),
            before == edits_of(old(changes)@),
            after == edits_of(changes@),
            unstable ==> sorted_from(before, after),
            !unstable ==> stably_sorted_from(before, after),
            pairwise_disjoint(before) == pairwise_disjoint(after),
            sorted_by_key(after),
            ordered_disjoint(after.take(i as int)),
            well_formed(after.take(i as int)),
        decreases changes.len() - i,
    {
        let right = &changes[i];
        proof {
            use_type_invariant(&right.delete);
            assert(after[i as int] == right@);
        }
        if i > 0 {
            let left = &changes[i - 1];
            proof {
                use_type_invariant(&left.delete);
                assert(after[i - 1] == left@);
            }
            if left.delete.end() > right.delete.start() {
                proof {
                    assert(key_le(after[i - 1].delete, after[i as int].delete));
                    assert(after[i - 1].delete.overlaps(after[i as int].delete));
                }
                return false;
            }
        }
        proof {
            let seen = after.take(i as int);
            let next = after.take(i + 1);
            assert forall|a: int, b: int|
                #![trigger next[a], next[b]]
                0 <= a < b < next.len() implies next[a].delete.precedes(next[b].delete) by {
                if b == i && a < i - 1 {
                    assert(seen[a].delete.precedes(seen[i - 1].delete));
                    assert(seen[i - 1].delete.wf());
                } else if b < i {
                    assert(seen[a].delete.precedes(seen[b].delete));
                }
            }
            assert forall|a: int| 0 <= a < next.len() implies (#[trigger] next[a]).delete.wf() by {
                if a < i {
                    assert(seen[a].delete.wf());
                }
            }
        }
        i += 1;
    }
    proof {
        assert(after.take(i as int) == after);
        assert forall|a: int, b: int|
            #![trigger after[a], after[b]]
            0 <= a < after.len() && 0 <= b < after.len() && a != b
            implies !after[a].delete.overlaps(after[b].delete) by {
            if a < b {
                assert(after[a].delete.precedes(after[b].delete));
            } else {
                assert(after[b].delete.precedes(after[a].delete));
            }
        }
    }
    true
}

/// Sorts `changes` as `check_disjoint_impl` does, keeping the order of
/// changes with the same range, and tells whether they are pairwise
/// disjoint.
pub fn check_disjoint(changes: &mut Vec<Change>) -> (b: bool)
    ensures
        stably_sorted_from(edits_of(old(changes)@), edits_of(final(changes)@)),
        b == pairwise_disjoint(edits_of(old(changes)@)),
        b ==> ordered_disjoint(edits_of(final(changes)@)) && well_formed(edits_of(final(changes)@)),
{
    check_disjoint_impl(changes, false)
}

/// Sorts `changes` as `check_disjoint_impl` does, in any order for changes
/// with the same range, and tells whether they are pairwise disjoint.
pub fn check_disjoint_unstable(changes: &mut Vec<Change>) -> (b: bool)
    ensures
        sorted_from(edits_of(old(changes)@), edits_of(final(changes)@)),
        b == pairwise_disjoint(edits_of(old(changes)@)),
        b ==> ordered_disjoint(edits_of(final(changes)@)) && well_formed(edits_of(final(changes)@)),
{
    check_disjoint_impl(changes, true)
}

/// Sorts changes that are pairwise disjoint, keeping the order of changes
/// with the same range: afterwards they stand one behind the other.
pub fn assert_disjoint(changes: &mut Vec<Change>)
    requires
        pairwise_disjoint(edits_of(old(changes)@)),
    ensures
        stably_sorted_from(edits_of(old(changes)@), edits_of(final(changes)@)),
        ordered_disjoint(edits_of(final(changes)@)),
        well_formed(edits_of(final(changes)@)),
{
    let disjoint = check_disjoint(changes);
    assert(disjoint);
}

/// Sorts changes that are pairwise disjoint, in any order for changes with
/// the same range: afterwards they stand one behind the other.
pub fn assert_disjoint_unstable(changes: &mut Vec<Change>)
    requires
        pairwise_disjoint(edits_of(old(changes)@)),
    ensures
        sorted_from(edits_of(old(changes)@), edits_of(final(changes)@)),
        ordered_disjoint(edits_of(final(changes)@)),
        well_formed(edits_of(final(changes)@)),
{
    let disjoint = check_disjoint_unstable(changes);
    assert(disjoint);
}

/// Collects changes for a `ChangeSet`.
#[derive(Debug)]
pub struct ChangeSetBuilder {
    changes: Vec<Change>,
}

impl View for ChangeSetBuilder {
    type V = Seq<Edit>;

    closed spec fn view(&self) -> Seq<Edit> {
        edits_of(self.changes@)
    }
}

impl Default for ChangeSetBuilder {
    /// A builder that holds no changes.
    fn default() -> (b: ChangeSetBuilder)
        ensures
            b@ == Seq::<Edit>::empty(),
    {
        ChangeSetBuilder { changes: Vec::new() }
    }
}

impl ChangeSetBuilder {
    /// A builder that holds no changes.
    pub fn new() -> (b: ChangeSetBuilder)
        ensures
            b@ == Seq::<Edit>::empty(),
    {
        ChangeSetBuilder { changes: Vec::new() }
    }

    /// A builder that holds `changes`, in their order.
    pub fn from_iter(changes: Vec<Change>) -> (b: ChangeSetBuilder)
        ensures
            b@ == edits_of(changes@),
    {
        ChangeSetBuilder { changes }
    }

    /// Adds `change` behind the changes collected so far.
    pub fn push(&mut self, change: Change)
        ensures
            final(self)@ == old(self)@.push(change@),
    {
        self.changes.push(change);
    }

    /// Adds `changes`, in their order, behind the changes collected so far.
    pub fn extend(&mut self, changes: Vec<Change>)
        ensures
            final(self)@ == old(self)@ + edits_of(changes@),
    {
        let mut changes = changes;
        self.changes.append(&mut changes);
    }

    /// The collected changes, which have to be pairwise disjoint, sorted by
    /// the start and end of their deleted ranges. Changes with the same
    /// range keep the order in which they were collected.
    pub fn build(self) -> (set: ChangeSet)
        requires
            pairwise_disjoint(self@),
        ensures
            stably_sorted_from(self@, set@),
            ordered_disjoint(set@),
            well_formed(set@),
    {
        let mut builder = self;
        assert_disjoint(&mut builder.changes);
        builder.build_unchecked()
    }

    /// The collected changes, which have to be pairwise disjoint, sorted by
    /// the start and end of their deleted ranges. Changes with the same
    /// range come in any order.
    pub fn build_unstable(self) -> (set: ChangeSet)
        requires
            pairwise_disjoint(self@),
        ensures
            sorted_from(self@, set@),
            ordered_disjoint(set@),
            well_formed(set@),
    {
        let mut builder = self;
        assert_disjoint_unstable(&mut builder.changes);
        builder.build_unchecked()
    }

    /// The collected changes sorted as `build` sorts them, or `None` when
    /// two of them overlap.
    pub fn try_build(self) -> (set: Option<ChangeSet>)
        ensures
            pairwise_disjoint(self@) ==> set is Some && stably_sorted_from(self@, set.unwrap()@)
                && ordered_disjoint(set.unwrap()@) && well_formed(set.unwrap()@),
            !pairwise_disjoint(self@) ==> set is None,
    {
        let mut builder = self;
        if check_disjoint(&mut builder.changes) {
            Some(builder.build_unchecked())
        } else {
            None
        }
    }

    /// The collected changes sorted as `build_unstable` sorts them, or
    /// `None` when two of them overlap.
    pub fn try_build_unstable(self) -> (set: Option<ChangeSet>)
        ensures
            pairwise_disjoint(self@) ==> set is Some && sorted_from(self@, set.unwrap()@)
                && ordered_disjoint(set.unwrap()@) && well_formed(set.unwrap()@),
            !pairwise_disjoint(self@) ==> set is None,
    {
        let mut builder = self;
        if check_disjoint_unstable(&mut builder.changes) {
            Some(builder.build_unchecked())
        } else {
            None
        }
    }

    /// The collected changes as they are: neither sorted nor checked.
    pub fn build_unchecked(self) -> (set: ChangeSet)
        ensures
            set@ == self@,
    {
        ChangeSet { changes: self.changes }
    }
}

/// An ordered batch of changes, all recorded against one text.
#[derive(Debug, Clone, PartialEq, Eq)]
pub struct ChangeSet {
    changes: Vec<Change>,
}

impl Default for ChangeSet {
    /// The batch without changes.
    fn default() -> (set: ChangeSet)
        ensures
            set@ == Seq::<Edit>::empty(),
    {
        ChangeSet { changes: Vec::new() }
    }
}

impl View for ChangeSet {
    type V = Seq<Edit>;

    closed spec fn view(&self) -> Seq<Edit> {
        edits_of(self.changes@)
    }
}

impl ChangeSet {
    /// The batch of `changes`, which have to be pairwise disjoint, sorted as
    /// `ChangeSetBuilder::build` sorts them.
    pub fn from_iter(changes: Vec<Change>) -> (set: ChangeSet)
        requires
            pairwise_disjoint(edits_of(changes@)),
        ensures
            stably_sorted_from(edits_of(changes@), set@),
            ordered_disjoint(set@),
            well_formed(set@),
    {
        ChangeSetBuilder::from_iter(changes).build()
    }

    /// Tells whether the batch can be applied to `text`: whether every
    /// change can be applied in its turn.
    pub fn can_apply(&self, text: &Rope) -> (b: bool)
        ensures
            b == each_fits(self@, 0, rope_text(*text)),
    {
        let len = rope_len(text);
        let ghost edits = self@;
        let ghost mut current = rope_text(*text);
        let mut offset: i64 = 0;
        let mut i: usize = 0;
        assert(edits.skip(0) == edits);
        while i < self.changes.len()
            invariant
                i <= self.changes.len(),
                edits == edits_of(self.changes@),
                each_fits(edits, 0, rope_text(*text)) == each_fits(
                    edits.skip(i as int),
                    offset as int,
                    current,
                ),
                current.len() == len + offset,
                len == rope_text(*text).len(),
            decreases self.changes.len() - i,
        {
            let change = &self.changes[i];
            proof {
                use_type_invariant(&change.delete);
                assert(edits.skip(i as int)[0] == change@);
                assert(edits.skip(i as int).drop_first() == edits.skip(i + 1));
            }
            let count = change.insert.as_str().unicode_len();
            let start = change.delete.start() as i128 + offset as i128;
            let end = change.delete.end() as i128 + offset as i128;
            let next = offset as i128 + count as i128 - change.delete.len() as i128;
            if start < 0 || end > u32::MAX as i128 || change.delete.end() > len
                || count as u64 > i64::MAX as u64 || next > i64::MAX as i128 {
                return false;
            }
            proof {
                current = change@.shift(offset as int).apply(current);
            }
            offset = next as i64;
            i += 1;
        }
        true
    }

    /// Applies the batch to `text` if it can be applied, and tells whether
    /// it did; a batch that cannot be applied leaves the text as it is.
    pub fn try_apply(self, text: &mut Rope) -> (applied: bool)
        ensures
            applied == each_fits(self@, 0, rope_text(*old(text))),
            applied ==> rope_text(*final(text)) == apply_each(self@, 0, rope_text(*old(text))),
            !applied ==> rope_text(*final(text)) == rope_text(*old(text)),
    {
        if self.can_apply(text) {
            self.apply(text);
            true
        } else {
            false
        }
    }

    /// Applies the changes to `text` from the first to the last. Each
    /// change is moved by the net change in length that the changes before
    /// it have made, and is then applied.
    pub fn apply(self, text: &mut Rope)
        requires
            each_fits(self@, 0, rope_text(*old(text))),
        ensures
            rope_text(*final(text)) == apply_each(self@, 0, rope_text(*old(text))),
    {
        let ghost edits = self@;
        let ghost changes = self.changes@;
        let ghost before = rope_text(*text);
        let mut offset: i64 = 0;
        assert(edits.skip(0) == edits);
        for change in it: self.changes
            invariant
                it.seq() == changes,
                edits == edits_of(changes),
                each_fits(edits.skip(it.index() as int), offset as int, rope_text(*text)),
                apply_each(edits.skip(it.index() as int), offset as int, rope_text(*text))
                    == apply_each(edits, 0, before),
        {
            proof {
                use_type_invariant(&change.delete);
                assert(edits.skip(it.index() as int)[0] == change@);
                assert(edits.skip(it.index() as int).drop_first() == edits.skip(it.index() + 1));
            }
            let change_offset = change.offset();
            change.add_offset(offset).apply(text);
            offset += change_offset;
        }
    }
}

/// Applying a change and then its inverse, computed from the text as it
/// was before the change, gives that text back: the inverse fits the
/// changed text, and applied to it restores every char.
pub proof fn lemma_invert_undoes_apply(change: Change, text: Rope)
    requires
        change@.fits(rope_text(text)),
    ensures
        change@.invert(rope_text(text)).fits(change@.apply(rope_text(text))),
        change@.invert(rope_text(text)).apply(change@.apply(rope_text(text))) == rope_text(text),
{
    let edit = change@;
    let before = rope_text(text);
    let after = edit.apply(before);
    let inverse = edit.invert(before);
    assert(inverse.apply(after) =~= before);
}

} // verus!
