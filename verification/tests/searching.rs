use hexapoda::buffer::marks::{mark_after, mark_before};
use hexapoda::cursor::Cursor;
use hexapoda::sorting::{search_cursors_by_head, search_offsets};

#[test]
fn searching_sorted_offsets() {
    let values = [2usize, 5, 9];
    assert_eq!(search_offsets(&values, 5), Ok(1));
    assert_eq!(search_offsets(&values, 0), Err(0));
    assert_eq!(search_offsets(&values, 6), Err(2));
    assert_eq!(search_offsets(&values, 10), Err(3));
    assert_eq!(search_offsets(&[], 10), Err(0));
}

#[test]
fn searching_selections_by_head() {
    let cursors = [Cursor::at(2), Cursor::at(5), Cursor::at(9)];
    assert_eq!(search_cursors_by_head(&cursors, 5), 1);
    assert_eq!(search_cursors_by_head(&cursors, 6), 2);
    assert_eq!(search_cursors_by_head(&cursors, 1), 0);
    assert_eq!(search_cursors_by_head(&cursors, 10), 3);
}

#[test]
fn marks_around_an_offset() {
    let marks = [4usize, 10];
    assert_eq!(mark_before(7, &marks), 4);
    assert_eq!(mark_before(10, &marks), 10);
    assert_eq!(mark_before(3, &marks), 0);
    assert_eq!(mark_after(7, &marks, 20), 10);
    assert_eq!(mark_after(4, &marks, 20), 10);
    assert_eq!(mark_after(10, &marks, 20), 21);
    assert_eq!(mark_after(0, &[], 20), 21);
}
