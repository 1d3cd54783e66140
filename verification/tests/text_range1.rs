use helix_core::text_size::{TextRange, TextRange1};
use std::convert::TryFrom;

#[test]
fn non_empty_range_keeps_its_offsets() {
    let range = TextRange1::new(2, 7);
    assert_eq!(TextRange::from(range), TextRange::new(2, 7));
    assert_eq!(range.into1::<TextRange>(), TextRange::new(2, 7));
    assert_eq!(range.into1::<(usize, usize)>(), (2, 7));
}

#[test]
fn non_empty_range_from_a_range() {
    assert_eq!(TextRange1::try_from(TextRange::new(2, 7)), Ok(TextRange1::new(2, 7)));
    assert_eq!(TextRange1::try_from(TextRange::empty(2)), Err(()));
    assert_eq!(TextRange1::assert_non_empty(TextRange::new(0, 1)), TextRange1::new(0, 1));
}

#[test]
fn non_empty_range_shifts() {
    assert_eq!(TextRange1::new(2, 7) + 3, TextRange1::new(5, 10));
}

#[test]
fn non_empty_range_reads_as_a_range() {
    let range = TextRange1::new(2, 7);
    assert_eq!(range.start(), 2);
    assert_eq!(range.end(), 7);
    assert_eq!(range.len(), 5);
    assert!(!range.is_empty());
    assert!(range.contains(6));
    assert_eq!(*range, TextRange::new(2, 7));
}
