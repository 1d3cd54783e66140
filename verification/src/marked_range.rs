//! Ranges of text that other parts of an editor hold on to by an
//! identifier, listed on demand in the order of their positions.

use crate::arena::{
    keys_sorted, range_le, slot_entries, slot_get, slot_insert, slot_keys, slot_len, slot_limit,
    slot_new, slot_remove, sort_keys_by_range, RangeSlots,
};
use crate::permutation::{lemma_rearranged_keeps_items, rearranged_by};
use crate::text_range::{option_view, Span, TextRange};
use slotmap::DefaultKey;
use vstd::prelude::*;

verus! {

/// Identifies a marked range for as long as it is marked.
pub type MarkedRangeId = DefaultKey;

/// The marked ranges, each under its identifier, and a list of the
/// identifiers that is brought into the order of the ranges when the ranges
/// are listed.
#[derive(Debug)]
pub struct MarkedRanges {
    slotmap: RangeSlots,
    sorted: Vec<MarkedRangeId>,
    should_sort: bool,
    should_reset: bool,
}

impl View for MarkedRanges {
    type V = Map<MarkedRangeId, Span>;

    /// The marked ranges, each under its identifier.
    closed spec fn view(&self) -> Map<MarkedRangeId, Span> {
        slot_entries(self.slotmap).map_values(|range: TextRange| range@)
    }
}

/// `listed` names every marked range of `ranges` once, each with its
/// identifier, in the order of the ranges.
pub open spec fn lists(
    listed: Seq<(MarkedRangeId, TextRange)>,
    ranges: Map<MarkedRangeId, Span>,
) -> bool {
    &&& listed.len() == ranges.dom().len()
    &&& forall|i: int|
        #![trigger listed[i]]
        0 <= i < listed.len() ==> ranges.dom().contains(listed[i].0) && ranges[listed[i].0]
            == listed[i].1@
    &&& forall|id: MarkedRangeId|
        ranges.dom().contains(id) ==> exists|i: int|
            0 <= i < listed.len() && (#[trigger] listed[i]).0 == id
    &&& forall|i: int, j: int|
        #![trigger listed[i], listed[j]]
        0 <= i < j < listed.len() ==> listed[i].0 != listed[j].0 && range_le(
            listed[i].1@,
            listed[j].1@,
        )
}

/// `order` names every marked range of `ranges` once and nothing else, in
/// the order of the ranges.
pub open spec fn in_order(order: Seq<MarkedRangeId>, ranges: Map<MarkedRangeId, Span>) -> bool {
    &&& order.no_duplicates()
    &&& order.to_set() == ranges.dom()
    &&& forall|i: int, j: int|
        #![trigger order[i], order[j]]
        0 <= i < j < order.len() ==> range_le(ranges[order[i]], ranges[order[j]])
}

impl Default for MarkedRanges {
    /// No marked ranges.
    fn default() -> (ranges: MarkedRanges)
        ensures
            ranges.wf(),
            ranges@ == Map::<MarkedRangeId, Span>::empty(),
            ranges.order() == Seq::<MarkedRangeId>::empty(),
            !ranges.needs_resort(),
            !ranges.needs_rebuild(),
    {
        let ranges = MarkedRanges {
            slotmap: slot_new(),
            sorted: Vec::new(),
            should_sort: false,
            should_reset: false,
        };
        assert(ranges@ =~= Map::<MarkedRangeId, Span>::empty());
        assert(ranges.sorted@.to_set() =~= slot_entries(ranges.slotmap).dom());
        ranges
    }
}

impl MarkedRanges {
    /// The list of identifiers as it is kept between listings.
    pub closed spec fn order(&self) -> Seq<MarkedRangeId> {
        self.sorted@
    }

    /// The kept list may be out of order.
    pub closed spec fn needs_resort(&self) -> bool {
        self.should_sort
    }

    /// The kept list may name identifiers that are no longer marked.
    pub closed spec fn needs_rebuild(&self) -> bool {
        self.should_reset
    }

    /// What holds of the kept list between calls: unless it needs a
    /// rebuild, it names every marked range once and nothing else; unless
    /// it needs a resort, it needs no rebuild and is in the order of the
    /// ranges.
    pub closed spec fn wf(&self) -> bool {
        &&& slot_entries(self.slotmap).dom().finite()
        &&& self.should_reset ==> self.should_sort
        &&& !self.should_reset ==> self.sorted@.no_duplicates() && self.sorted@.to_set()
            == slot_entries(self.slotmap).dom()
        &&& !self.should_sort ==> keys_sorted(self.sorted@, slot_entries(self.slotmap))
    }

    /// The number of marked ranges.
    pub fn len(&self) -> (n: usize)
        ensures
            n == self@.dom().len(),
    {
        assert(self@.dom() =~= slot_entries(self.slotmap).dom());
        slot_len(&self.slotmap)
    }

    /// The range marked under `id`, or `None` when nothing is marked under
    /// it.
    pub fn get(&self, id: MarkedRangeId) -> (range: Option<TextRange>)
        ensures
            option_view(range) == self@.get(id),
    {
        slot_get(&self.slotmap, id)
    }

    /// Marks `range` and returns the identifier it is marked under, which
    /// is none of those in use. There has to be room for one more range.
    pub fn insert(&mut self, range: TextRange) -> (id: MarkedRangeId)
        requires
            old(self).wf(),
            old(self)@.dom().len() < slot_limit(),
        ensures
            final(self).wf(),
            !old(self)@.dom().contains(id),
            final(self)@ == old(self)@.insert(id, range@),
            final(self).order() == old(self).order().push(id),
            final(self).needs_resort(),
            final(self).needs_rebuild() == old(self).needs_rebuild(),
    {
        let ghost before = slot_entries(self.slotmap);
        assert(self@.dom() =~= before.dom());
        let id = slot_insert(&mut self.slotmap, range);
        self.sorted.push(id);
        self.should_sort = true;
        proof {
            assert(self@ =~= old(self)@.insert(id, range@));
            if !self.should_reset {
                let ids = old(self).sorted@;
                assert(!ids.contains(id));
                assert(self.sorted@.to_set() =~= before.dom().insert(id)) by {
                    let more = self.sorted@;
                    assert forall|k: MarkedRangeId|
                        more.to_set().contains(k) == before.dom().insert(id).contains(k) by {
                        if ids.contains(k) {
                            let i = choose|i: int| 0 <= i < ids.len() && ids[i] == k;
                            assert(more[i] == k);
                        }
                        if k == id {
                            assert(more[ids.len() as int] == k);
                        }
                    }
                }
            }
        }
        id
    }

    /// Marks `range` if there is room for one more range, and returns the
    /// identifier as `insert` does; otherwise changes nothing.
    pub fn try_insert(&mut self, range: TextRange) -> (id: Option<MarkedRangeId>)
        requires
            old(self).wf(),
        ensures
            final(self).wf(),
            old(self)@.dom().len() < slot_limit() ==> id is Some && !old(self)@.dom().contains(
                id.unwrap(),
            ) && final(self)@ == old(self)@.insert(id.unwrap(), range@) && final(self).order()
                == old(self).order().push(id.unwrap()) && final(self).needs_resort()
                && final(self).needs_rebuild() == old(self).needs_rebuild(),
            old(self)@.dom().len() >= slot_limit() ==> id is None && *final(self) == *old(self),
    {
        if self.len() < (u32::MAX - 1) as usize {
            Some(self.insert(range))
        } else {
            None
        }
    }

    /// Unmarks the range marked under `id` and returns it. An identifier
    /// under which nothing is marked gives `None` and changes nothing.
    pub fn remove(&mut self, id: MarkedRangeId) -> (range: Option<TextRange>)
        requires
            old(self).wf(),
        ensures
            final(self).wf(),
            final(self)@ == old(self)@.remove(id),
            final(self).order() == old(self).order(),
            old(self)@.dom().contains(id) ==> range is Some && range.unwrap()@ == old(self)@[id]
                && final(self).needs_resort() && final(self).needs_rebuild(),
            !old(self)@.dom().contains(id) ==> range is None && final(self)@ == old(self)@
                && final(self).needs_resort() == old(self).needs_resort()
                && final(self).needs_rebuild() == old(self).needs_rebuild(),
    {
        let ghost before = slot_entries(self.slotmap);
        assert(self@.dom() =~= before.dom());
        let removed = slot_remove(&mut self.slotmap, id);
        proof {
            assert(self@ =~= old(self)@.remove(id));
        }
        match removed {
            Some(range) => {
                self.should_reset = true;
                self.should_sort = true;
                Some(range)
            },
            None => {
                proof {
                    assert(slot_entries(self.slotmap) =~= before);
                }
                None
            },
        }
    }

    /// Brings the kept list up to date: rebuilds it from the marked ranges
    /// if it needs that, and sorts it by range if it needs that.
    pub fn invariants(&mut self)
        requires
            old(self).wf(),
        ensures
            final(self).wf(),
            final(self)@ == old(self)@,
            !final(self).needs_resort(),
            !final(self).needs_rebuild(),
            !old(self).needs_resort() ==> final(self).order() == old(self).order(),
            in_order(final(self).order(), final(self)@),
    {
        if self.should_reset {
            self.sorted = slot_keys(&self.slotmap);
        }
        if self.should_sort {
            let ghost unsorted = self.sorted@;
            assert forall|i: int| 0 <= i < unsorted.len() implies slot_entries(
                self.slotmap,
            ).dom().contains(unsorted[i]) by {
                assert(unsorted.to_set().contains(unsorted[i]));
            }
            sort_keys_by_range(&mut self.sorted, &self.slotmap);
            proof {
                let p = choose|p: Seq<int>| rearranged_by(p, unsorted, self.sorted@);
                lemma_rearranged_keeps_items(p, unsorted, self.sorted@);
            }
        }
        self.should_reset = false;
        self.should_sort = false;
        proof {
            let entries = slot_entries(self.slotmap);
            assert(self@.dom() =~= entries.dom());
            let ids = self.sorted@;
            assert forall|i: int, j: int|
                #![trigger ids[i], ids[j]]
                0 <= i < j < ids.len() implies range_le(self@[ids[i]], self@[ids[j]]) by {
                assert(ids.to_set().contains(ids[i]));
                assert(ids.to_set().contains(ids[j]));
                assert(range_le(entries[ids[i]]@, entries[ids[j]]@));
            }
        }
    }

    /// Lists every marked range once, with its identifier, in the order of
    /// the ranges. The kept list is brought up to date first; when it is up
    /// to date already, nothing changes.
    pub fn iter(&mut self) -> (listed: Vec<(MarkedRangeId, TextRange)>)
        requires
            old(self).wf(),
        ensures
            listing(*old(self), *final(self), listed@),
    {
        self.invariants();
        let ghost entries = slot_entries(self.slotmap);
        assert(self@.dom() =~= entries.dom());
        let mut listed: Vec<(MarkedRangeId, TextRange)> = Vec::new();
        let mut i: usize = 0;
        while i < self.sorted.len()
            invariant
                i <= self.sorted.len(),
                entries == slot_entries(self.slotmap),
                self.sorted@.to_set() == entries.dom(),
                listed@.len() == i,
                forall|k: int|
                    0 <= k < i ==> (#[trigger] listed@[k]).0 == self.sorted@[k] && listed@[k].1
                        == entries[self.sorted@[k]],
            decreases self.sorted.len() - i,
        {
            let id = self.sorted[i];
            assert(self.sorted@.to_set().contains(id));
            if let Some(range) = slot_get(&self.slotmap, id) {
                listed.push((id, range));
            }
            i += 1;
        }
        proof {
            let ids = self.sorted@;
            ids.unique_seq_to_set();
            assert forall|id: MarkedRangeId| self@.dom().contains(id) implies exists|k: int|
                0 <= k < listed@.len() && (#[trigger] listed@[k]).0 == id by {
                assert(ids.to_set().contains(id));
                let k = choose|k: int| 0 <= k < ids.len() && ids[k] == id;
                assert(listed@[k].0 == id);
            }
            assert forall|a: int, b: int|
                #![trigger listed@[a], listed@[b]]
                0 <= a < b < listed@.len() implies listed@[a].0 != listed@[b].0 && range_le(
                listed@[a].1@,
                listed@[b].1@,
            ) by {
                assert(range_le(entries[ids[a]]@, entries[ids[b]]@));
            }
        }
        listed
    }
}

/// What a listing does: `listed` is what `iter` returns on the marked
/// ranges `before`, which it leaves as `after`.
pub open spec fn listing(
    before: MarkedRanges,
    after: MarkedRanges,
    listed: Seq<(MarkedRangeId, TextRange)>,
) -> bool {
    &&& after.wf()
    &&& after@ == before@
    &&& !after.needs_resort()
    &&& !after.needs_rebuild()
    &&& !before.needs_resort() ==> after.order() == before.order()
    &&& in_order(after.order(), after@)
    &&& lists(listed, after@)
    &&& listed.len() == after.order().len()
    &&& forall|i: int| 0 <= i < listed.len() ==> (#[trigger] listed[i]).0 == after.order()[i]
}

/// Listing twice in a row gives the same list twice, and the second
/// listing changes nothing.
pub proof fn lemma_listing_twice(
    start: MarkedRanges,
    between: MarkedRanges,
    end: MarkedRanges,
    first: Seq<(MarkedRangeId, TextRange)>,
    second: Seq<(MarkedRangeId, TextRange)>,
)
    requires
        listing(start, between, first),
        listing(between, end, second),
    ensures
        second == first,
        end@ == between@,
        end.order() == between.order(),
        end.needs_resort() == between.needs_resort(),
        end.needs_rebuild() == between.needs_rebuild(),
{
    assert forall|i: int| 0 <= i < first.len() implies first[i] == second[i] by {
        assert(first[i].0 == second[i].0);
        assert(first[i].1@ == second[i].1@);
        TextRange::lemma_view_injective(first[i].1, second[i].1);
    }
    assert(second =~= first);
}

} // verus!
