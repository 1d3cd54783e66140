//! The arena that holds marked ranges: a slot map, in which every stored
//! range is addressed by a key that is not handed out again while the range
//! is stored.

use crate::permutation::rearranged_by;
use crate::text_range::{Span, TextRange};
use slotmap::{DefaultKey, HopSlotMap};
use vstd::prelude::*;

verus! {

/// `slotmap::DefaultKey`, the key that a slot map hands out. Two keys are
/// the same key when they are equal.
#[verifier::external_type_specification]
#[verifier::external_body]
pub struct ExDefaultKey(DefaultKey);

/// A slot map of ranges. What it stores is known only through
/// `slot_entries` and the functions below.
#[verifier::external_body]
#[derive(Debug)]
pub struct RangeSlots {
    slots: HopSlotMap<DefaultKey, TextRange>,
}

/// The ranges that a slot map stores, each under its key.
pub uninterp spec fn slot_entries(map: RangeSlots) -> Map<DefaultKey, TextRange>;

/// The entries of a slot map that stores nothing.
pub open spec fn no_entries() -> Map<DefaultKey, TextRange> {
    Map::empty()
}

/// The largest number of ranges that a slot map stores.
pub open spec fn slot_limit() -> nat {
    (u32::MAX - 1) as nat
}

/// `HopSlotMap::new`: a slot map that stores nothing.
#[verifier::external_body]
pub(crate) fn slot_new() -> (slots: RangeSlots)
    ensures
        slot_entries(slots) == no_entries(),
{
    RangeSlots { slots: HopSlotMap::new() }
}

/// `HopSlotMap::len`: the number of ranges stored.
#[verifier::external_body]
pub(crate) fn slot_len(map: &RangeSlots) -> (n: usize)
    ensures
        n == slot_entries(*map).dom().len(),
{
    map.slots.len()
}

/// `HopSlotMap::insert`, on a slot map that stores fewer ranges than its
/// limit: `range` is stored under a key under which nothing was stored, and
/// that key is returned.
#[verifier::external_body]
pub(crate) fn slot_insert(map: &mut RangeSlots, range: TextRange) -> (key: DefaultKey)
    requires
        slot_entries(*old(map)).dom().finite(),
        slot_entries(*old(map)).dom().len() < slot_limit(),
    ensures
        !slot_entries(*old(map)).dom().contains(key),
        slot_entries(*final(map)) == slot_entries(*old(map)).insert(key, range),
{
    map.slots.insert(range)
}

/// `HopSlotMap::remove`: the range stored under `key`, if there is one, is
/// taken out and returned; nothing else changes.
#[verifier::external_body]
pub(crate) fn slot_remove(map: &mut RangeSlots, key: DefaultKey) -> (range: Option<TextRange>)
    ensures
        range == slot_entries(*old(map)).get(key),
        slot_entries(*final(map)) == slot_entries(*old(map)).remove(key),
{
    map.slots.remove(key)
}

/// `HopSlotMap::get`: a copy of the range stored under `key`, if there is
/// one.
#[verifier::external_body]
pub(crate) fn slot_get(map: &RangeSlots, key: DefaultKey) -> (range: Option<TextRange>)
    ensures
        range == slot_entries(*map).get(key),
{
    map.slots.get(key).copied()
}

/// `HopSlotMap::keys`, collected: every key under which a range is stored,
/// each of them once, in no stated order.
#[verifier::external_body]
pub(crate) fn slot_keys(map: &RangeSlots) -> (keys: Vec<DefaultKey>)
    ensures
        keys@.no_duplicates(),
        keys@.to_set() == slot_entries(*map).dom(),
{
    map.slots.keys().collect()
}

/// The order of ranges by which marked ranges are listed: by start, then by
/// end.
pub open spec fn range_le(a: Span, b: Span) -> bool {
    a.start < b.start || (a.start == b.start && a.end <= b.end)
}

/// The keys stand in the order of the ranges stored under them.
pub open spec fn keys_sorted(keys: Seq<DefaultKey>, entries: Map<DefaultKey, TextRange>) -> bool {
    forall|i: int, j: int|
        #![trigger keys[i], keys[j]]
        0 <= i < j < keys.len() ==> range_le(entries[keys[i]]@, entries[keys[j]]@)
}

/// The start and end of the range stored under `key`, if there is one.
pub(crate) fn range_key(map: &RangeSlots, key: DefaultKey) -> (k: Option<(usize, usize)>)
    ensures
        slot_entries(*map).dom().contains(key) ==> k == Some(
            (slot_entries(*map)[key]@.start as usize, slot_entries(*map)[key]@.end as usize),
        ),
        !slot_entries(*map).dom().contains(key) ==> k is None,
{
    match slot_get(map, key) {
        Some(range) => Some((range.start(), range.end())),
        None => None,
    }
}

/// `slice::sort_unstable_by_key` on keys under all of which a range is
/// stored, with the start and end of that range as the sort key: the keys
/// are rearranged into the order of their ranges.
#[verifier::external_body]
pub(crate) fn sort_keys_by_range(keys: &mut Vec<DefaultKey>, map: &RangeSlots)
    requires
        forall|i: int|
            #![trigger old(keys)@[i]]
            0 <= i < old(keys)@.len() ==> slot_entries(*map).dom().contains(old(keys)@[i]),
    ensures
        exists|p: Seq<int>| rearranged_by(p, old(keys)@, final(keys)@),
        keys_sorted(final(keys)@, slot_entries(*map)),
{
    keys.sort_unstable_by_key(|key| range_key(map, *key))
}

} // verus!
