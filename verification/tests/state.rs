use helix_core::state::{Selection, State};
use helix_core::text_range::TextRange;
use ropey::Rope;

#[test]
fn new_state_selects_nothing_and_marks_nothing() {
    let mut state = State::new(Rope::from_str("hello"));
    assert_eq!(state.doc, "hello");
    assert_eq!(state.selection, Selection::point(0));
    assert_eq!(state.selection.range(), TextRange::empty(0));
    assert!(state.marked_ranges.iter().is_empty());
}

#[test]
fn point_selection_is_an_empty_range() {
    assert_eq!(Selection::point(7).range(), TextRange::empty(7));
}
