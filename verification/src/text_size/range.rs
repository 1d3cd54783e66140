//! Ranges that are known not to be empty.

use std::ops::{Add, Deref};
use vstd::prelude::*;
use vstd::std_specs::convert::FromSpec;

pub use crate::text_range::{Span, TextRange};

verus! {

/// A range in text that is not empty.
#[derive(Debug, Copy, Clone, Eq, PartialEq, Structural, Hash)]
pub struct TextRange1(TextRange);

impl View for TextRange1 {
    type V = Span;

    closed spec fn view(&self) -> Span {
        self.0@
    }
}

impl TextRange1 {
    /// The invariant of every such range: it is a range, and not empty.
    #[verifier::type_invariant]
    pub open spec fn wf(self) -> bool {
        self.range().wf() && !self@.is_empty()
    }

    /// The range itself.
    pub closed spec fn range(self) -> TextRange {
        self.0
    }

    /// The non-empty range that `inner` is.
    pub closed spec fn of(inner: TextRange) -> TextRange1 {
        TextRange1(inner)
    }

    /// `of` and `range` undo each other, and neither changes the view.
    pub proof fn lemma_of_range(inner: TextRange, outer: TextRange1)
        ensures
            TextRange1::of(inner).range() == inner,
            TextRange1::of(inner)@ == inner@,
            TextRange1::of(outer.range()) == outer,
            outer.range()@ == outer@,
    {
    }

    /// Creates the range `start..end`, which may not be empty.
    pub fn new(start: usize, end: usize) -> (r: TextRange1)
        requires
            start < end <= u32::MAX,
        ensures
            r@ == (Span { start: start as int, end: end as int }),
    {
        let inner = TextRange::new(start, end);
        Self::assert_non_empty(inner)
    }

    /// This range, converted into any type that a range converts into.
    pub fn into1<T: From<TextRange>>(self) -> (r: T)
        ensures
            T::obeys_from_spec() ==> r == T::from_spec(self.range()),
    {
        T::from(self.0)
    }

    /// `inner` as a range that is known not to be empty.
    pub fn assert_non_empty(inner: TextRange) -> (r: TextRange1)
        requires
            !inner@.is_empty(),
        ensures
            r == TextRange1::of(inner),
            r@ == inner@,
    {
        proof {
            use_type_invariant(&inner);
        }
        TextRange1(inner)
    }
}

impl Deref for TextRange1 {
    type Target = TextRange;

    fn deref(&self) -> (r: &TextRange)
        ensures
            *r == self.range(),
    {
        &self.0
    }
}

impl TryFrom<TextRange> for TextRange1 {
    type Error = ();

    /// `inner` as a range that is known not to be empty, unless it is empty.
    fn try_from(inner: TextRange) -> (r: Result<Self, Self::Error>) {
        if inner.is_empty() {
            Err(())
        } else {
            Ok(TextRange1::assert_non_empty(inner))
        }
    }
}

impl vstd::std_specs::convert::TryFromSpecImpl<TextRange> for TextRange1 {
    open spec fn obeys_try_from_spec() -> bool {
        true
    }

    open spec fn try_from_spec(inner: TextRange) -> Result<Self, Self::Error> {
        if inner@.is_empty() {
            Err(())
        } else {
            Ok(TextRange1::of(inner))
        }
    }
}

impl From<TextRange1> for TextRange {
    fn from(value: TextRange1) -> (r: TextRange) {
        value.0
    }
}

impl vstd::std_specs::convert::FromSpecImpl<TextRange1> for TextRange {
    open spec fn obeys_from_spec() -> bool {
        true
    }

    open spec fn from_spec(value: TextRange1) -> TextRange {
        value.range()
    }
}

/// Shifts both endpoints up; the shifted end has to fit in 32 bits.
impl Add<usize> for TextRange1 {
    type Output = TextRange1;

    fn add(self, rhs: usize) -> (r: TextRange1) {
        proof {
            use_type_invariant(&self);
            TextRange::lemma_from_span(self.0@.shift(rhs as int));
        }
        TextRange1(self.0 + rhs)
    }
}

impl vstd::std_specs::ops::AddSpecImpl<usize> for TextRange1 {
    open spec fn obeys_add_spec() -> bool {
        true
    }

    open spec fn add_req(self, rhs: usize) -> bool {
        self@.end + rhs <= u32::MAX
    }

    open spec fn add_spec(self, rhs: usize) -> TextRange1 {
        TextRange1::of(TextRange::from_span(self@.shift(rhs as int)))
    }
}

} // verus!
