use cctui::RecentEvent;
use cctui::RecentEventHistory;
use cctui::SelectionList;
use cctui::selection::column_count;
use cctui::selection::local_cursor;

fn ev(timestamp: u64, tag: &str) -> RecentEvent {
    RecentEvent {
        timestamp,
        source: 0,
        status: tag.to_string(),
    }
}

#[test]
fn history_keeps_five_newest_whatever_the_insertion_order() {
    let mut h = RecentEventHistory::new(5);
    for &(t, tag) in &[
        (40u64, "d"),
        (10, "a"),
        (70, "g"),
        (20, "b"),
        (60, "f"),
        (30, "c"),
        (50, "e"),
    ] {
        h.insert(ev(t, tag));
        assert!(h.len() <= 5);
    }
    assert_eq!(h.len(), 5);
    let times: Vec<u64> = (0..5).map(|i| h.get(i).timestamp).collect();
    assert_eq!(times, vec![30, 40, 50, 60, 70]);
    let tags: Vec<String> = (0..5).map(|i| h.get(i).status.clone()).collect();
    assert_eq!(tags, vec!["c", "d", "e", "f", "g"]);
}

#[test]
fn history_breaks_timestamp_ties_by_insertion_order() {
    let mut h = RecentEventHistory::new(3);
    h.insert(ev(10, "first"));
    h.insert(ev(10, "second"));
    h.insert(ev(10, "third"));
    assert_eq!(h.get(0).status.as_str(), "first");
    assert_eq!(h.get(1).status.as_str(), "second");
    assert_eq!(h.get(2).status.as_str(), "third");
    // a fourth tie evicts the chronologically oldest, which is the earliest
    // inserted of the equal timestamps
    h.insert(ev(10, "fourth"));
    assert_eq!(h.len(), 3);
    assert_eq!(h.get(0).status.as_str(), "second");
    assert_eq!(h.get(2).status.as_str(), "fourth");
}

#[test]
fn history_insertion_below_capacity_keeps_everything() {
    let mut h = RecentEventHistory::new(5);
    h.insert(ev(300, "x"));
    h.insert(ev(100, "y"));
    assert_eq!(h.len(), 2);
    assert_eq!(h.get(0).timestamp, 100);
    assert_eq!(h.get(1).timestamp, 300);
}

#[test]
fn empty_selection_never_selects() {
    let mut list: SelectionList<u32> = SelectionList::from_items(vec![]);
    list.next();
    assert_eq!(list.cursor(), None);
    list.prev();
    assert_eq!(list.cursor(), None);
    list.first();
    assert_eq!(list.cursor(), None);
    list.last();
    assert_eq!(list.cursor(), None);
    list.select(3);
    assert_eq!(list.cursor(), None);
}

#[test]
fn cursor_clamps_at_both_ends() {
    let mut list = SelectionList::from_items(vec![10u32, 20, 30]);
    assert_eq!(list.cursor(), None);
    list.next();
    assert_eq!(list.cursor(), Some(0));
    list.prev(); // already at index 0: no-op
    assert_eq!(list.cursor(), Some(0));
    list.next();
    list.next();
    assert_eq!(list.cursor(), Some(2));
    list.next(); // already at the last index: no-op
    assert_eq!(list.cursor(), Some(2));
    list.first();
    assert_eq!(list.cursor(), Some(0));
    list.last();
    assert_eq!(list.cursor(), Some(2));
    list.select(1);
    assert_eq!(list.cursor(), Some(1));
    list.select(99); // out of range: clamps to the last index
    assert_eq!(list.cursor(), Some(2));
    list.deselect();
    assert_eq!(list.cursor(), None);
    assert_eq!(*list.get(1), 20);
    assert_eq!(list.len(), 3);
}

#[test]
fn global_cursor_maps_into_its_own_column_only() {
    // 3 columns of height 4; global index 5 lives in column 1, local row 1
    assert_eq!(local_cursor(Some(5), 0, 4), None);
    assert_eq!(local_cursor(Some(5), 1, 4), Some(1));
    assert_eq!(local_cursor(Some(5), 2, 4), None);
    assert_eq!(local_cursor(Some(0), 0, 4), Some(0));
    assert_eq!(local_cursor(Some(7), 1, 4), Some(3));
    assert_eq!(local_cursor(Some(8), 2, 4), Some(0));
    assert_eq!(local_cursor(None, 0, 4), None);
}

#[test]
fn column_count_rounds_up() {
    assert_eq!(column_count(0, 4), 0);
    assert_eq!(column_count(1, 4), 1);
    assert_eq!(column_count(4, 4), 1);
    assert_eq!(column_count(5, 4), 2);
    assert_eq!(column_count(8, 4), 2);
    assert_eq!(column_count(9, 4), 3);
    assert_eq!(column_count(7, 1), 7);
}

#[test]
fn shrinking_the_sequence_clamps_or_clears_the_cursor() {
    let mut list = SelectionList::from_items(vec![1u32, 2, 3, 4, 5]);
    list.last();
    assert_eq!(list.cursor(), Some(4));
    list.set_items(vec![1u32, 2]); // cursor past the new end: clamps
    assert_eq!(list.cursor(), Some(1));
    assert_eq!(list.len(), 2);
    list.set_items(vec![1u32, 2, 3]); // growing keeps the cursor
    assert_eq!(list.cursor(), Some(1));
    list.set_items(vec![]); // empty clears it
    assert_eq!(list.cursor(), None);
    list.set_items(vec![7u32]); // and it stays cleared
    assert_eq!(list.cursor(), None);
}
