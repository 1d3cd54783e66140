//! A half-open range `[start, end)` of text offsets and its algebra.

use crate::buffer::{rope_len, rope_slice, rope_text};
use ropey::Rope;
use std::cmp::Ordering;
use std::ops::{Add, Range, Sub};
use vstd::prelude::*;

verus! {

/// The mathematical model of a text range: the half-open interval
/// `[start, end)` over the integers.
pub struct Span {
    pub start: int,
    pub end: int,
}

impl Span {
    /// A span is well formed when it starts at or after zero and does not
    /// end before it starts.
    pub open spec fn wf(self) -> bool {
        0 <= self.start <= self.end
    }

    /// The zero-length span at `offset`.
    pub open spec fn empty(offset: int) -> Span {
        Span { start: offset, end: offset }
    }

    /// The number of offsets the span covers.
    pub open spec fn len(self) -> int {
        self.end - self.start
    }

    pub open spec fn is_empty(self) -> bool {
        self.start == self.end
    }

    /// Membership of an offset, the end excluded.
    pub open spec fn contains(self, offset: int) -> bool {
        self.start <= offset < self.end
    }

    /// Membership of an offset, the end included.
    pub open spec fn contains_inclusive(self, offset: int) -> bool {
        self.start <= offset <= self.end
    }

    /// `other` lies completely inside `self`; every span contains itself.
    pub open spec fn contains_range(self, other: Span) -> bool {
        self.start <= other.start && other.end <= self.end
    }

    /// The part shared by both spans. Spans that merely touch share the
    /// empty span at the point of contact; spans with a gap between them
    /// share nothing.
    pub open spec fn intersect(self, other: Span) -> Option<Span> {
        let start = if self.start >= other.start { self.start } else { other.start };
        let end = if self.end <= other.end { self.end } else { other.end };
        if end < start {
            None
        } else {
            Some(Span { start, end })
        }
    }

    /// The smallest span that contains both spans.
    pub open spec fn cover(self, other: Span) -> Span {
        Span {
            start: if self.start <= other.start { self.start } else { other.start },
            end: if self.end >= other.end { self.end } else { other.end },
        }
    }

    /// Both endpoints moved by `delta`.
    pub open spec fn shift(self, delta: int) -> Span {
        Span { start: self.start + delta, end: self.end + delta }
    }

    /// `self` ends at or before the start of `other`.
    pub open spec fn precedes(self, other: Span) -> bool {
        self.end <= other.start
    }

    /// Neither span ends at or before the start of the other.
    pub open spec fn overlaps(self, other: Span) -> bool {
        !self.precedes(other) && !other.precedes(self)
    }
}

/// A range in text, represented as a pair of 32-bit offsets.
///
/// Every value of this type satisfies `start <= end`.
#[derive(Copy, Clone, Debug, PartialEq, Eq, Structural, Hash)]
pub struct TextRange {
    start: u32,
    end: u32,
}

impl View for TextRange {
    type V = Span;

    closed spec fn view(&self) -> Span {
        Span { start: self.start as int, end: self.end as int }
    }
}

/// The view of an optional range.
pub open spec fn option_view(r: Option<TextRange>) -> Option<Span> {
    match r {
        Some(x) => Some(x@),
        None => None,
    }
}

impl Default for TextRange {
    /// The empty range at offset zero.
    fn default() -> (r: TextRange)
        ensures
            r@ == Span::empty(0),
    {
        TextRange { start: 0, end: 0 }
    }
}

/// Constructor methods.
impl TextRange {
    /// The invariant of every range: its offsets are ordered and fit in 32
    /// bits.
    #[verifier::type_invariant]
    pub open spec fn wf(self) -> bool {
        self@.wf() && self@.end <= u32::MAX
    }

    /// Two ranges with the same view are the same range.
    pub proof fn lemma_view_injective(a: TextRange, b: TextRange)
        requires
            a@ == b@,
        ensures
            a == b,
    {
    }

    /// Creates the range `start..end`.
    pub fn new(start: usize, end: usize) -> (r: TextRange)
        requires
            start <= end <= u32::MAX,
        ensures
            r@ == (Span { start: start as int, end: end as int }),
    {
        TextRange { start: start as u32, end: end as u32 }
    }

    /// Creates the range `start..end` when that is a range: `None` when the
    /// end lies before the start or beyond 32 bits.
    pub fn try_new(start: usize, end: usize) -> (r: Option<TextRange>)
        ensures
            start <= end <= u32::MAX ==> option_view(r) == Some(
                Span { start: start as int, end: end as int },
            ),
            !(start <= end <= u32::MAX) ==> r is None,
    {
        if start <= end && end <= u32::MAX as usize {
            Some(TextRange::new(start, end))
        } else {
            None
        }
    }

    /// Creates the range `offset..offset + len`.
    pub fn at(offset: usize, len: usize) -> (r: TextRange)
        requires
            offset + len <= u32::MAX,
        ensures
            r@ == (Span { start: offset as int, end: offset + len }),
    {
        TextRange::new(offset, offset + len)
    }

    /// Creates the zero-length range `offset..offset`.
    pub fn empty(offset: usize) -> (r: TextRange)
        requires
            offset <= u32::MAX,
        ensures
            r@ == Span::empty(offset as int),
    {
        TextRange::new(offset, offset)
    }

    /// Creates the range `0..end`.
    pub fn up_to(end: usize) -> (r: TextRange)
        requires
            end <= u32::MAX,
        ensures
            r@ == (Span { start: 0, end: end as int }),
    {
        TextRange::new(0, end)
    }
}

/// Identity methods.
impl TextRange {
    /// The start point of this range.
    pub fn start(self) -> (s: usize)
        ensures
            s == self@.start,
    {
        self.start as usize
    }

    /// The end point of this range.
    pub fn end(self) -> (e: usize)
        ensures
            e == self@.end,
    {
        self.end as usize
    }

    /// The size of this range.
    pub fn len(self) -> (n: usize)
        ensures
            n == self@.len(),
    {
        proof {
            use_type_invariant(&self);
        }
        (self.end - self.start) as usize
    }

    /// Check if this range is empty.
    pub fn is_empty(self) -> (b: bool)
        ensures
            b == self@.is_empty(),
    {
        self.start == self.end
    }
}

/// Manipulation methods.
impl TextRange {
    /// This range with its start replaced.
    pub fn with_start(self, start: usize) -> (r: TextRange)
        requires
            start <= self@.end,
        ensures
            r@ == (Span { start: start as int, end: self@.end }),
    {
        proof {
            use_type_invariant(&self);
        }
        TextRange::new(start, self.end())
    }

    /// This range with its end replaced.
    pub fn with_end(self, end: usize) -> (r: TextRange)
        requires
            self@.start <= end <= u32::MAX,
        ensures
            r@ == (Span { start: self@.start, end: end as int }),
    {
        TextRange::new(self.start(), end)
    }

    /// Replaces the start of this range.
    pub fn set_start(&mut self, start: usize)
        requires
            start <= old(self)@.end,
        ensures
            final(self)@ == (Span { start: start as int, end: old(self)@.end }),
    {
        proof {
            use_type_invariant(&*self);
        }
        self.start = start as u32;
    }

    /// Replaces the end of this range.
    pub fn set_end(&mut self, end: usize)
        requires
            old(self)@.start <= end <= u32::MAX,
        ensures
            final(self)@ == (Span { start: old(self)@.start, end: end as int }),
    {
        self.end = end as u32;
    }

    /// Check if this range contains an offset.
    ///
    /// The end index is considered excluded.
    pub fn contains(self, offset: usize) -> (b: bool)
        ensures
            b == self@.contains(offset as int),
    {
        self.start() <= offset && offset < self.end()
    }

    /// Check if this range contains an offset.
    ///
    /// The end index is considered included.
    pub fn contains_inclusive(self, offset: usize) -> (b: bool)
        ensures
            b == self@.contains_inclusive(offset as int),
    {
        self.start() <= offset && offset <= self.end()
    }

    /// Check if this range completely contains another range.
    pub fn contains_range(self, other: TextRange) -> (b: bool)
        ensures
            b == self@.contains_range(other@),
    {
        self.start() <= other.start() && other.end() <= self.end()
    }

    /// The range covered by both ranges, if it exists.
    /// If the ranges touch but do not overlap, the output range is empty.
    pub fn intersect(self, other: TextRange) -> (r: Option<TextRange>)
        ensures
            option_view(r) == self@.intersect(other@),
    {
        let start = if self.start() >= other.start() { self.start() } else { other.start() };
        let end = if self.end() <= other.end() { self.end() } else { other.end() };
        if end < start {
            return None;
        }
        Some(TextRange::new(start, end))
    }

    /// Extends the range to cover `other` as well.
    pub fn cover(self, other: TextRange) -> (r: TextRange)
        ensures
            r@ == self@.cover(other@),
    {
        proof {
            use_type_invariant(&self);
            use_type_invariant(&other);
        }
        let start = if self.start() <= other.start() { self.start() } else { other.start() };
        let end = if self.end() >= other.end() { self.end() } else { other.end() };
        TextRange::new(start, end)
    }

    /// Extends the range to cover `offset` as well.
    pub fn cover_offset(self, offset: usize) -> (r: TextRange)
        requires
            offset <= u32::MAX,
        ensures
            r@ == self@.cover(Span::empty(offset as int)),
    {
        self.cover(TextRange::empty(offset))
    }

    /// Add an offset to this range.
    ///
    /// Note that this is not appropriate for changing where a `TextRange` is
    /// within some string; rather, it is for changing the reference anchor
    /// that the `TextRange` is measured against.
    ///
    /// Reports `None` when the shifted end would not fit in 32 bits.
    pub fn checked_add(self, offset: usize) -> (r: Option<TextRange>)
        ensures
            self@.end + offset <= u32::MAX ==> option_view(r) == Some(self@.shift(offset as int)),
            self@.end + offset > u32::MAX ==> r is None,
    {
        proof {
            use_type_invariant(&self);
        }
        if offset > u32::MAX as usize {
            return None;
        }
        let offset = offset as u32;
        if offset > u32::MAX - self.end {
            return None;
        }
        Some(TextRange { start: self.start + offset, end: self.end + offset })
    }

    /// Subtract an offset from this range.
    ///
    /// Note that this is not appropriate for changing where a `TextRange` is
    /// within some string; rather, it is for changing the reference anchor
    /// that the `TextRange` is measured against.
    ///
    /// Reports `None` when the shifted start would lie before zero.
    pub fn checked_sub(self, offset: usize) -> (r: Option<TextRange>)
        ensures
            offset <= self@.start ==> option_view(r) == Some(self@.shift(-(offset as int))),
            offset > self@.start ==> r is None,
    {
        proof {
            use_type_invariant(&self);
        }
        if offset > self.start() {
            return None;
        }
        let offset = offset as u32;
        Some(TextRange { start: self.start - offset, end: self.end - offset })
    }

    /// Relative order of the two ranges (overlapping ranges are considered
    /// equal).
    ///
    /// This is useful when, for example, binary searching an array of disjoint
    /// ranges.
    pub fn ordering(self, other: TextRange) -> (o: Ordering)
        ensures
            o == Ordering::Less <==> self@.precedes(other@),
            o == Ordering::Greater <==> !self@.precedes(other@) && other@.precedes(self@),
            o == Ordering::Equal <==> self@.overlaps(other@),
    {
        if self.end <= other.start {
            Ordering::Less
        } else if other.end <= self.start {
            Ordering::Greater
        } else {
            Ordering::Equal
        }
    }
}

impl TextRange {
    /// The offsets of this range as a range of `usize`.
    pub fn into_usize_range(self) -> (r: Range<usize>)
        ensures
            r.start == self@.start,
            r.end == self@.end,
    {
        self.start()..self.end()
    }

    /// The text of this range in `rope`. The range has to lie inside the
    /// rope.
    pub fn slice(self, rope: &Rope) -> (s: String)
        requires
            self@.end <= rope_text(*rope).len(),
        ensures
            s@ == rope_text(*rope).subrange(self@.start, self@.end),
    {
        proof {
            use_type_invariant(&self);
        }
        rope_slice(rope, self.start(), self.end())
    }

    /// The text of this range in `rope`, or `None` when the range does not
    /// lie inside the rope.
    pub fn try_slice(self, rope: &Rope) -> (s: Option<String>)
        ensures
            self@.end <= rope_text(*rope).len() ==> s is Some && s.unwrap()@ == rope_text(
                *rope,
            ).subrange(self@.start, self@.end),
            self@.end > rope_text(*rope).len() ==> s is None,
    {
        if self.end() <= rope_len(rope) {
            Some(self.slice(rope))
        } else {
            None
        }
    }

    /// The empty range at the start of this range.
    pub fn start_empty(self) -> (r: TextRange)
        ensures
            r@ == Span::empty(self@.start),
    {
        proof {
            use_type_invariant(&self);
        }
        TextRange::empty(self.start())
    }

    /// The empty range at the end of this range.
    pub fn end_point(self) -> (r: TextRange)
        ensures
            r@ == Span::empty(self@.end),
    {
        proof {
            use_type_invariant(&self);
        }
        TextRange::empty(self.end())
    }
}

/// Conversions out of a range. The conversions into a range are the
/// constructors above, which state when a pair of offsets is a range.
impl From<TextRange> for (usize, usize) {
    fn from(r: TextRange) -> (p: (usize, usize)) {
        (r.start(), r.end())
    }
}

impl vstd::std_specs::convert::FromSpecImpl<TextRange> for (usize, usize) {
    open spec fn obeys_from_spec() -> bool {
        true
    }

    open spec fn from_spec(r: TextRange) -> (usize, usize) {
        (r@.start as usize, r@.end as usize)
    }
}

impl From<TextRange> for Range<usize> {
    fn from(r: TextRange) -> (p: Range<usize>) {
        r.start()..r.end()
    }
}

impl vstd::std_specs::convert::FromSpecImpl<TextRange> for Range<usize> {
    open spec fn obeys_from_spec() -> bool {
        true
    }

    open spec fn from_spec(r: TextRange) -> Range<usize> {
        Range { start: r@.start as usize, end: r@.end as usize }
    }
}

impl TextRange {
    /// The range whose view is `s`, for a span that is a range.
    pub closed spec fn from_span(s: Span) -> TextRange {
        TextRange { start: s.start as u32, end: s.end as u32 }
    }

    /// `from_span` inverts the view on the spans that are ranges.
    pub proof fn lemma_from_span(s: Span)
        requires
            s.wf(),
            s.end <= u32::MAX,
        ensures
            TextRange::from_span(s)@ == s,
            TextRange::from_span(s).wf(),
    {
    }
}

/// Shifts both endpoints up; the shifted end has to fit in 32 bits.
impl Add<usize> for TextRange {
    type Output = TextRange;

    fn add(self, rhs: usize) -> (r: TextRange) {
        proof {
            use_type_invariant(&self);
        }
        let rhs = rhs as u32;
        TextRange { start: self.start + rhs, end: self.end + rhs }
    }
}

impl vstd::std_specs::ops::AddSpecImpl<usize> for TextRange {
    open spec fn obeys_add_spec() -> bool {
        true
    }

    open spec fn add_req(self, rhs: usize) -> bool {
        self@.end + rhs <= u32::MAX
    }

    open spec fn add_spec(self, rhs: usize) -> TextRange {
        TextRange::from_span(self@.shift(rhs as int))
    }
}

/// Shifts both endpoints down; the offset may not exceed the start.
impl Sub<usize> for TextRange {
    type Output = TextRange;

    fn sub(self, rhs: usize) -> (r: TextRange) {
        proof {
            use_type_invariant(&self);
        }
        let rhs = rhs as u32;
        TextRange { start: self.start - rhs, end: self.end - rhs }
    }
}

impl vstd::std_specs::ops::SubSpecImpl<usize> for TextRange {
    open spec fn obeys_sub_spec() -> bool {
        true
    }

    open spec fn sub_req(self, rhs: usize) -> bool {
        rhs <= self@.start
    }

    open spec fn sub_spec(self, rhs: usize) -> TextRange {
        TextRange::from_span(self@.shift(-(rhs as int)))
    }
}

/// Laws of the range algebra.
impl TextRange {
    /// The cover of two ranges contains both of them, and every span that
    /// contains both contains their cover.
    pub proof fn lemma_cover_is_least_upper_bound(a: TextRange, b: TextRange, c: Span)
        ensures
            a@.cover(b@).contains_range(a@),
            a@.cover(b@).contains_range(b@),
            c.contains_range(a@) && c.contains_range(b@) ==> c.contains_range(a@.cover(b@)),
    {
    }

    /// Two ranges intersect unless there is a gap between them, which is to
    /// say unless their cover is longer than the two of them together.
    /// Ranges that touch intersect in the empty range at the point of
    /// contact; whatever two ranges share lies inside both.
    pub proof fn lemma_intersect_touching_or_apart(a: TextRange, b: TextRange)
        requires
            a.wf(),
            b.wf(),
        ensures
            a@.intersect(b@) is None <==> a@.end < b@.start || b@.end < a@.start,
            a@.intersect(b@) is None <==> a@.cover(b@).len() > a@.len() + b@.len(),
            a@.end == b@.start ==> a@.intersect(b@) == Some(Span::empty(a@.end)),
            a@.intersect(b@) matches Some(s) ==> s.wf() && a@.contains_range(s)
                && b@.contains_range(s),
    {
    }
}

} // verus!
