//! The state of one open document.

use crate::marked_range::{MarkedRangeId, MarkedRanges};
use crate::text_range::{Span, TextRange};
use ropey::Rope;
use vstd::prelude::*;

verus! {

/// The selection in a document: the range of text that is selected. A
/// point, where nothing is selected, is an empty range.
#[derive(Debug, Copy, Clone, PartialEq, Eq, Structural)]
pub struct Selection {
    range: TextRange,
}

impl View for Selection {
    type V = Span;

    closed spec fn view(&self) -> Span {
        self.range@
    }
}

impl Selection {
    /// The selection of nothing, at `offset`.
    pub fn point(offset: usize) -> (s: Selection)
        requires
            offset <= u32::MAX,
        ensures
            s@ == Span::empty(offset as int),
    {
        Selection { range: TextRange::empty(offset) }
    }

    /// The selected range.
    pub fn range(&self) -> (r: TextRange)
        ensures
            r@ == self@,
    {
        self.range
    }
}

/// A document: its text, the selection in it, and the ranges marked in it.
#[derive(Debug)]
pub struct State {
    pub doc: Rope,
    pub selection: Selection,
    pub marked_ranges: MarkedRanges,
}

impl State {
    /// The state of a document that was just opened with the text `doc`:
    /// nothing is selected, at the start of the text, and nothing is marked.
    #[must_use]
    pub fn new(doc: Rope) -> (state: State)
        ensures
            state.doc == doc,
            state.selection@ == Span::empty(0),
            state.marked_ranges.wf(),
            state.marked_ranges@ == Map::<MarkedRangeId, Span>::empty(),
    {
        State { doc, selection: Selection::point(0), marked_ranges: MarkedRanges::default() }
    }
}

} // verus!
