use helix_core::change::{
    check_disjoint, check_disjoint_impl, check_disjoint_unstable, Change, ChangeSet,
    ChangeSetBuilder,
};
use helix_core::text_range::TextRange;
use ropey::Rope;

fn change(start: usize, end: usize, insert: &str) -> Change {
    Change::new(TextRange::new(start, end), insert.to_string())
}

fn changes(items: &[(usize, usize, &str)]) -> Vec<Change> {
    items.iter().map(|(start, end, insert)| change(*start, *end, insert)).collect()
}

fn check_apply(items: &[(usize, usize, &str)], before: &str, after: &str) {
    let list = changes(items);
    let mut sorted = list.clone();
    assert!(check_disjoint(&mut sorted), "Changes were not disjoint");
    let change_set = ChangeSet::from_iter(list);
    let mut before = Rope::from_str(before);
    let after = Rope::from_str(after);
    assert!(change_set.can_apply(&before));
    change_set.apply(&mut before);
    assert_eq!(before, after);
}

#[test]
fn test_apply() {
    check_apply(
        &[(5, 6, "   "), (0, 0, "prefix "), (0, 0, "another ")],
        "hello world!",
        "prefix another hello   world!",
    );
}

#[test]
fn overlapping_changes_are_not_disjoint() {
    let mut list = changes(&[(5, 6, "asdfasdf"), (5, 6, "asdfasd;fkas")]);
    assert!(!check_disjoint(&mut list));
    let mut list = changes(&[(5, 6, "asdfasdf"), (5, 6, "asdfasd;fkas")]);
    assert!(!check_disjoint_unstable(&mut list));
    let mut list = changes(&[(0, 10, "a"), (2, 2, "b")]);
    assert!(!check_disjoint(&mut list));
    let mut list = changes(&[(4, 8, "a"), (0, 5, "b")]);
    assert!(!check_disjoint_impl(&mut list, true));
}

#[test]
fn touching_and_empty_changes_are_disjoint() {
    let mut list = changes(&[(5, 6, "a"), (6, 9, "b"), (0, 5, "c")]);
    assert!(check_disjoint(&mut list));
    assert_eq!(list, changes(&[(0, 5, "c"), (5, 6, "a"), (6, 9, "b")]));
    let mut list = changes(&[(3, 3, "a"), (3, 3, "b"), (3, 3, "c")]);
    assert!(check_disjoint(&mut list));
    assert_eq!(list, changes(&[(3, 3, "a"), (3, 3, "b"), (3, 3, "c")]));
    let mut list = changes(&[(3, 5, "a"), (3, 3, "b")]);
    assert!(check_disjoint(&mut list));
    assert_eq!(list, changes(&[(3, 3, "b"), (3, 5, "a")]));
    let mut list: Vec<Change> = Vec::new();
    assert!(check_disjoint(&mut list));
    let mut list = changes(&[(7, 9, "x")]);
    assert!(check_disjoint_unstable(&mut list));
}

#[test]
fn change_beyond_the_text_cannot_apply() {
    let set = ChangeSet::from_iter(changes(&[(3, 4, "")]));
    assert!(!set.can_apply(&Rope::from_str("")));
    assert!(!set.can_apply(&Rope::from_str("abc")));
    assert!(set.can_apply(&Rope::from_str("abcd")));
    assert!(!change(3, 4, "").can_apply(&Rope::from_str("abc")));
    assert!(change(3, 4, "").can_apply(&Rope::from_str("abcd")));
    assert!(change(0, 0, "x").can_apply(&Rope::from_str("")));
}

#[test]
fn single_change_replaces_its_range() {
    let mut text = Rope::from_str("hello world!");
    change(5, 6, "   ").apply(&mut text);
    assert_eq!(text, "hello   world!");
    let mut text = Rope::from_str("hello world!");
    change(0, 5, "").apply(&mut text);
    assert_eq!(text, " world!");
    let mut text = Rope::from_str("hello world!");
    change(12, 12, "?").apply(&mut text);
    assert_eq!(text, "hello world!?");
    let mut text = Rope::from_str("Hello みんなさん!");
    change(6, 9, "世界").apply(&mut text);
    assert_eq!(text, "Hello 世界さん!");
}

#[test]
fn offset_is_inserted_less_deleted() {
    assert_eq!(change(5, 6, "   ").offset(), 2);
    assert_eq!(change(0, 0, "prefix ").offset(), 7);
    assert_eq!(change(2, 9, "").offset(), -7);
    assert_eq!(change(2, 4, "ab").offset(), 0);
    assert_eq!(change(0, 1, "みんな").offset(), 2);
}

#[test]
fn add_offset_moves_the_range() {
    assert_eq!(change(5, 6, "x").add_offset(7), change(12, 13, "x"));
    assert_eq!(change(5, 6, "x").add_offset(-5), change(0, 1, "x"));
    assert_eq!(change(5, 6, "x").add_offset(0), change(5, 6, "x"));
}

#[test]
fn invert_deletes_the_insert_and_inserts_the_deleted() {
    let text = Rope::from_str("hello world!");
    assert_eq!(change(5, 6, "   ").invert(&text), change(5, 8, " "));
    assert_eq!(change(0, 5, "").invert(&text), change(0, 0, "hello"));
    assert_eq!(change(12, 12, "abc").invert(&text), change(12, 15, ""));
}

#[test]
fn apply_then_invert_restores_the_text() {
    let original = "Hello みんなさん, hello world!";
    let len = original.chars().count();
    let inserts = ["", "x", "   ", "世界", "a longer piece of text"];
    for start in 0..=len {
        for end in start..=len {
            for insert in inserts {
                let edit = change(start, end, insert);
                let before = Rope::from_str(original);
                let inverse = edit.invert(&before);
                let mut text = before.clone();
                assert!(edit.can_apply(&text));
                edit.apply(&mut text);
                assert!(inverse.can_apply(&text));
                inverse.apply(&mut text);
                assert_eq!(text, before);
            }
        }
    }
}

#[test]
fn batch_equals_changes_applied_one_at_a_time() {
    let pushed = changes(&[
        (14, 14, "!"),
        (5, 6, "   "),
        (0, 0, "prefix "),
        (8, 11, ""),
        (0, 0, "another "),
    ]);
    let sorted = changes(&[
        (0, 0, "prefix "),
        (0, 0, "another "),
        (5, 6, "   "),
        (8, 11, ""),
        (14, 14, "!"),
    ]);
    let original = "hello world, hi";
    let mut expected = Rope::from_str(original);
    let mut delta: i64 = 0;
    for edit in sorted.iter() {
        let own = edit.offset();
        edit.clone().add_offset(delta).apply(&mut expected);
        delta += own;
    }
    assert_eq!(expected, "prefix another hello   wo, h!i");
    let set = ChangeSetBuilder::from_iter(pushed).build();
    assert_eq!(set, ChangeSetBuilder::from_iter(sorted).build_unchecked());
    let mut text = Rope::from_str(original);
    assert!(set.can_apply(&text));
    set.apply(&mut text);
    assert_eq!(text, expected);
}

#[test]
fn build_keeps_push_order_of_inserts_at_one_point() {
    let mut builder = ChangeSetBuilder::new();
    builder.push(change(3, 3, "c"));
    builder.push(change(0, 0, "a"));
    builder.extend(changes(&[(3, 3, "d"), (0, 0, "b")]));
    let set = builder.build();
    let expected = changes(&[(0, 0, "a"), (0, 0, "b"), (3, 3, "c"), (3, 3, "d")]);
    assert_eq!(set, ChangeSetBuilder::from_iter(expected).build_unchecked());
    let mut text = Rope::from_str("xyz");
    set.apply(&mut text);
    assert_eq!(text, "abxyzcd");
}

#[test]
fn build_unstable_sorts_by_start_and_end() {
    let pushed = changes(&[(6, 9, "b"), (5, 6, "a"), (0, 5, "c"), (5, 5, "d")]);
    let set = ChangeSetBuilder::from_iter(pushed).build_unstable();
    let expected = changes(&[(0, 5, "c"), (5, 5, "d"), (5, 6, "a"), (6, 9, "b")]);
    assert_eq!(set, ChangeSetBuilder::from_iter(expected).build_unchecked());
}

#[test]
fn build_unchecked_neither_sorts_nor_checks() {
    let overlapping = changes(&[(5, 6, "asdfasdf"), (5, 6, "asdfasd;fkas")]);
    let set = ChangeSetBuilder::from_iter(overlapping.clone()).build_unchecked();
    let mut same = ChangeSetBuilder::new();
    same.push(overlapping[0].clone());
    same.push(overlapping[1].clone());
    assert_eq!(set, same.build_unchecked());
    let unsorted = changes(&[(5, 6, "b"), (0, 1, "a")]);
    let set = ChangeSetBuilder::from_iter(unsorted).build_unchecked();
    assert_ne!(set, ChangeSet::from_iter(changes(&[(5, 6, "b"), (0, 1, "a")])));
    assert!(set.can_apply(&Rope::from_str("0123456")));
    let mut text = Rope::from_str("0123456");
    set.apply(&mut text);
    assert_eq!(text, "a1234b6");
}

#[test]
fn empty_batch_changes_nothing() {
    let set = ChangeSetBuilder::new().build();
    assert_eq!(set, ChangeSet::default());
    let mut text = Rope::from_str("hello");
    assert!(set.can_apply(&text));
    set.apply(&mut text);
    assert_eq!(text, "hello");
    assert_eq!(ChangeSetBuilder::default().build_unchecked(), ChangeSet::default());
}

#[test]
fn try_build_reports_overlap() {
    let overlapping = changes(&[(5, 6, "asdfasdf"), (5, 6, "asdfasd;fkas")]);
    assert_eq!(ChangeSetBuilder::from_iter(overlapping.clone()).try_build(), None);
    assert_eq!(ChangeSetBuilder::from_iter(overlapping).try_build_unstable(), None);
    let disjoint = changes(&[(5, 6, "   "), (0, 0, "prefix "), (0, 0, "another ")]);
    let sorted = changes(&[(0, 0, "prefix "), (0, 0, "another "), (5, 6, "   ")]);
    assert_eq!(
        ChangeSetBuilder::from_iter(disjoint).try_build(),
        Some(ChangeSetBuilder::from_iter(sorted).build_unchecked()),
    );
    let disjoint = changes(&[(5, 6, "b"), (0, 1, "a")]);
    let sorted = changes(&[(0, 1, "a"), (5, 6, "b")]);
    assert_eq!(
        ChangeSetBuilder::from_iter(disjoint).try_build_unstable(),
        Some(ChangeSetBuilder::from_iter(sorted).build_unchecked()),
    );
}

#[test]
fn try_apply_leaves_the_text_when_a_change_does_not_fit() {
    let mut text = Rope::from_str("abc");
    assert!(!change(3, 4, "x").try_apply(&mut text));
    assert_eq!(text, "abc");
    assert!(change(2, 3, "x").try_apply(&mut text));
    assert_eq!(text, "abx");
    let set = ChangeSet::from_iter(changes(&[(0, 1, "z"), (3, 4, "")]));
    assert!(!set.try_apply(&mut text));
    assert_eq!(text, "abx");
    let set = ChangeSet::from_iter(changes(&[(0, 1, "zz"), (2, 3, "")]));
    assert!(set.try_apply(&mut text));
    assert_eq!(text, "zzb");
}

#[test]
fn try_invert_reports_a_change_that_does_not_fit() {
    let text = Rope::from_str("hello world!");
    assert_eq!(change(5, 6, "   ").try_invert(&text), Some(change(5, 8, " ")));
    assert_eq!(change(12, 13, "").try_invert(&text), None);
    assert_eq!(change(12, 12, "").try_invert(&text), Some(change(12, 12, "")));
}

/// A small generator of numbers that follow no obvious pattern.
fn next_number(state: &mut u64) -> usize {
    *state = state.wrapping_mul(6364136223846793005).wrapping_add(1442695040888963407);
    (*state >> 33) as usize
}

#[test]
fn batch_replaces_every_range_at_once() {
    let pieces = ["", "x", "yz", "世界", "0123456789"];
    let original: Vec<char> = "Hello みんなさん, hello wide world! äöü".chars().collect();
    let mut state = 42;
    for _ in 0..200 {
        // Cut the text at sorted points; every second stretch is replaced.
        let mut cuts: Vec<usize> = Vec::new();
        for _ in 0..(next_number(&mut state) % 9) {
            cuts.push(next_number(&mut state) % (original.len() + 1));
        }
        cuts.sort();
        let mut list: Vec<Change> = Vec::new();
        let mut expected = String::new();
        let mut from = 0;
        for pair in cuts.chunks(2) {
            if let [start, end] = pair {
                let insert = pieces[next_number(&mut state) % pieces.len()];
                list.push(change(*start, *end, insert));
                expected.extend(&original[from..*start]);
                expected.push_str(insert);
                from = *end;
            }
        }
        expected.extend(&original[from..]);
        // Push the changes from the last to the first: `build` has to sort.
        list.reverse();
        let mut sorted = list.clone();
        let disjoint = check_disjoint(&mut sorted);
        let set = ChangeSetBuilder::from_iter(list).try_build();
        assert_eq!(set.is_some(), disjoint);
        if let Some(set) = set {
            let mut text = Rope::from_str(&original.iter().collect::<String>());
            assert!(set.can_apply(&text));
            set.apply(&mut text);
            assert_eq!(text, expected.as_str());
        }
    }
}
