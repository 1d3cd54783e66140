use helix_core::text_range::TextRange;
use std::cmp::Ordering;
use std::ops::Range;

#[test]
fn new_keeps_start_end_and_len() {
    let start = 5;
    let end = 10;
    let range = TextRange::new(start, end);
    assert_eq!(range.start(), start);
    assert_eq!(range.end(), end);
    assert_eq!(range.len(), end - start);
}

#[test]
fn new_with_end_before_start_is_no_range() {
    assert_eq!(TextRange::try_new(4, 2), None);
    assert_eq!(TextRange::try_new(2, 4), Some(TextRange::new(2, 4)));
    assert_eq!(TextRange::try_new(4, 4), Some(TextRange::empty(4)));
}

#[test]
fn new_beyond_32_bits_is_no_range() {
    let max = u32::MAX as usize;
    assert_eq!(TextRange::try_new(0, max), Some(TextRange::up_to(max)));
    if let Some(beyond) = max.checked_add(1) {
        assert_eq!(TextRange::try_new(0, beyond), None);
        assert_eq!(TextRange::try_new(beyond, beyond), None);
    }
}

#[test]
fn at_is_offset_and_length() {
    let offset = 2;
    let length = 5;
    let range = TextRange::at(offset, length);
    assert_eq!(range, TextRange::new(offset, offset + length));
    assert_eq!(range.into_usize_range(), 2..7);
    assert_eq!(&"0123456789"[range.into_usize_range()], "23456");
}

#[test]
fn empty_is_zero_length() {
    let point = 3;
    let range = TextRange::empty(point);
    assert!(range.is_empty());
    assert_eq!(range.len(), 0);
    assert_eq!(range, TextRange::new(point, point));
    assert!(!TextRange::new(3, 4).is_empty());
}

#[test]
fn up_to_starts_at_zero() {
    let point = 12;
    let range = TextRange::up_to(point);
    assert_eq!(range.len(), point);
    assert_eq!(range, TextRange::new(0, point));
    assert_eq!(range, TextRange::at(0, point));
}

#[test]
fn default_is_empty_at_zero() {
    assert_eq!(TextRange::default(), TextRange::empty(0));
}

#[test]
fn with_and_set_replace_one_end() {
    let range = TextRange::new(5, 10);
    assert_eq!(range.with_start(7), TextRange::new(7, 10));
    assert_eq!(range.with_start(10), TextRange::empty(10));
    assert_eq!(range.with_end(6), TextRange::new(5, 6));
    assert_eq!(range.with_end(5), TextRange::empty(5));
    let mut range = TextRange::new(5, 10);
    range.set_start(2);
    assert_eq!(range, TextRange::new(2, 10));
    range.set_end(3);
    assert_eq!(range, TextRange::new(2, 3));
}

#[test]
fn contains_excludes_the_end() {
    let (start, end) = (10, 20);
    let range = TextRange::new(start, end);
    assert!(range.contains(start));
    assert!(range.contains(19));
    assert!(!range.contains(end));
    assert!(!range.contains(9));
    assert!(!TextRange::empty(5).contains(5));
}

#[test]
fn contains_inclusive_includes_the_end() {
    let (start, end) = (10, 20);
    let range = TextRange::new(start, end);
    assert!(range.contains_inclusive(start));
    assert!(range.contains_inclusive(end));
    assert!(!range.contains_inclusive(21));
    assert!(!range.contains_inclusive(9));
    assert!(TextRange::empty(5).contains_inclusive(5));
}

#[test]
fn contains_range_is_inclusive_of_equality() {
    let larger = TextRange::new(0, 20);
    let smaller = TextRange::new(5, 15);
    assert!(larger.contains_range(smaller));
    assert!(!smaller.contains_range(larger));
    assert!(larger.contains_range(larger));
    assert!(smaller.contains_range(smaller));
    assert!(!TextRange::new(0, 10).contains_range(TextRange::new(5, 15)));
}

#[test]
fn intersect_of_overlapping_ranges() {
    assert_eq!(
        TextRange::intersect(TextRange::new(0, 10), TextRange::new(5, 15)),
        Some(TextRange::new(5, 10)),
    );
    assert_eq!(
        TextRange::intersect(TextRange::new(5, 15), TextRange::new(0, 10)),
        Some(TextRange::new(5, 10)),
    );
    assert_eq!(
        TextRange::intersect(TextRange::new(0, 20), TextRange::new(5, 15)),
        Some(TextRange::new(5, 15)),
    );
}

#[test]
fn intersect_of_touching_ranges_is_empty_at_the_contact() {
    assert_eq!(
        TextRange::intersect(TextRange::new(5, 10), TextRange::new(10, 15)),
        Some(TextRange::new(10, 10)),
    );
    assert_eq!(
        TextRange::intersect(TextRange::new(10, 15), TextRange::new(5, 10)),
        Some(TextRange::empty(10)),
    );
}

#[test]
fn intersect_of_ranges_with_a_gap_is_none() {
    assert_eq!(TextRange::intersect(TextRange::new(5, 10), TextRange::new(11, 15)), None);
    assert_eq!(TextRange::intersect(TextRange::new(11, 15), TextRange::new(5, 10)), None);
    assert_eq!(TextRange::intersect(TextRange::empty(0), TextRange::empty(1)), None);
}

#[test]
fn cover_spans_both_ranges() {
    assert_eq!(
        TextRange::cover(TextRange::new(0, 5), TextRange::new(15, 20)),
        TextRange::new(0, 20),
    );
    assert_eq!(
        TextRange::cover(TextRange::new(15, 20), TextRange::new(0, 5)),
        TextRange::new(0, 20),
    );
    assert_eq!(
        TextRange::cover(TextRange::new(0, 20), TextRange::new(5, 6)),
        TextRange::new(0, 20),
    );
}

#[test]
fn cover_contains_both_ranges() {
    let ranges = [
        TextRange::new(0, 5),
        TextRange::new(3, 9),
        TextRange::new(9, 9),
        TextRange::new(15, 20),
        TextRange::new(0, 20),
    ];
    for a in ranges {
        for b in ranges {
            assert!(a.cover(b).contains_range(a));
            assert!(a.cover(b).contains_range(b));
            assert_eq!(a.cover(b), b.cover(a));
        }
    }
}

#[test]
fn cover_offset_extends_to_the_offset() {
    assert_eq!(TextRange::empty(0).cover_offset(20), TextRange::new(0, 20));
    assert_eq!(TextRange::new(5, 10).cover_offset(2), TextRange::new(2, 10));
    assert_eq!(TextRange::new(5, 10).cover_offset(7), TextRange::new(5, 10));
}

#[test]
fn checked_add_shifts_or_reports_overflow() {
    let max = u32::MAX as usize;
    assert_eq!(TextRange::new(5, 10).checked_add(3), Some(TextRange::new(8, 13)));
    assert_eq!(TextRange::new(5, 10).checked_add(0), Some(TextRange::new(5, 10)));
    assert_eq!(
        TextRange::new(5, 10).checked_add(max - 10),
        Some(TextRange::new(max - 5, max)),
    );
    assert_eq!(TextRange::new(5, 10).checked_add(max - 9), None);
    assert_eq!(TextRange::new(5, 10).checked_add(max), None);
    assert_eq!(TextRange::new(5, 10).checked_add(usize::MAX), None);
}

#[test]
fn checked_sub_shifts_or_reports_underflow() {
    assert_eq!(TextRange::new(5, 10).checked_sub(3), Some(TextRange::new(2, 7)));
    assert_eq!(TextRange::new(5, 10).checked_sub(5), Some(TextRange::new(0, 5)));
    assert_eq!(TextRange::new(5, 10).checked_sub(6), None);
    assert_eq!(TextRange::new(5, 10).checked_sub(usize::MAX), None);
}

#[test]
fn add_and_sub_shift_both_ends() {
    assert_eq!(TextRange::new(5, 10) + 3, TextRange::new(8, 13));
    assert_eq!(TextRange::new(5, 10) - 5, TextRange::new(0, 5));
    assert_eq!(TextRange::new(5, 10) + 0, TextRange::new(5, 10));
}

#[test]
fn ordering_treats_overlap_as_equal() {
    let a = TextRange::new(0, 3);
    let b = TextRange::new(4, 5);
    assert_eq!(a.ordering(b), Ordering::Less);
    assert_eq!(b.ordering(a), Ordering::Greater);

    let a = TextRange::new(0, 3);
    let b = TextRange::new(3, 5);
    assert_eq!(a.ordering(b), Ordering::Less);
    assert_eq!(b.ordering(a), Ordering::Greater);

    let a = TextRange::new(0, 3);
    let b = TextRange::new(2, 5);
    assert_eq!(a.ordering(b), Ordering::Equal);
    assert_eq!(b.ordering(a), Ordering::Equal);

    let a = TextRange::new(0, 3);
    let b = TextRange::new(2, 2);
    assert_eq!(a.ordering(b), Ordering::Equal);

    let a = TextRange::new(2, 3);
    let b = TextRange::new(2, 2);
    assert_eq!(a.ordering(b), Ordering::Greater);
    assert_eq!(b.ordering(a), Ordering::Less);
}

#[test]
fn ordering_of_a_containing_range_is_equal() {
    let outer = TextRange::new(0, 20);
    let inner = TextRange::new(5, 15);
    assert_eq!(outer.ordering(inner), Ordering::Equal);
    assert_eq!(inner.ordering(outer), Ordering::Equal);
    assert_ne!(outer, inner);
}

#[test]
fn start_empty_and_end_point() {
    let range = TextRange::new(5, 10);
    assert_eq!(range.start_empty(), TextRange::empty(5));
    assert_eq!(range.end_point(), TextRange::empty(10));
}

#[test]
fn converts_into_pair_and_range() {
    let range = TextRange::new(5, 10);
    let pair: (usize, usize) = range.into();
    assert_eq!(pair, (5, 10));
    let offsets: Range<usize> = range.into();
    assert_eq!(offsets, 5..10);
}

#[test]
fn slice_takes_the_chars_of_the_range() {
    let rope = ropey::Rope::from_str("Hello みんなさん!");
    assert_eq!(TextRange::new(3, 8).slice(&rope), "lo みん");
    assert_eq!(TextRange::new(0, 5).slice(&rope), "Hello");
    assert_eq!(TextRange::empty(4).slice(&rope), "");
    assert_eq!(TextRange::up_to(rope.len_chars()).slice(&rope), "Hello みんなさん!");
}

#[test]
fn try_slice_reports_a_range_beyond_the_rope() {
    let rope = ropey::Rope::from_str("hello");
    assert_eq!(TextRange::new(1, 3).try_slice(&rope), Some("el".to_string()));
    assert_eq!(TextRange::new(0, 5).try_slice(&rope), Some("hello".to_string()));
    assert_eq!(TextRange::new(0, 6).try_slice(&rope), None);
    assert_eq!(TextRange::new(6, 6).try_slice(&rope), None);
}
