use hexapoda::cursor::{Cursor, clamp_value};

#[test]
fn cursor_bounds_do_not_depend_on_direction() {
    let forward = Cursor { head: 7, tail: 3 };
    let backward = Cursor { head: 3, tail: 7 };
    assert_eq!(forward.lower_bound(), 3);
    assert_eq!(forward.upper_bound(), 7);
    assert_eq!(backward.lower_bound(), 3);
    assert_eq!(backward.upper_bound(), 7);
    assert_eq!(forward.len(), 5);
    assert_eq!(backward.len(), 5);
    assert_eq!(forward.range(), 3..=7);
    assert_eq!(backward.range(), 3..=7);
}

#[test]
fn cursor_at_selects_one_byte() {
    let cursor = Cursor::at(9);
    assert_eq!(cursor, Cursor { head: 9, tail: 9 });
    assert_eq!(cursor.len(), 1);
}

#[test]
fn collapse_keeps_the_head() {
    let mut cursor = Cursor { head: 2, tail: 8 };
    cursor.collapse();
    assert_eq!(cursor, Cursor { head: 2, tail: 2 });
}

#[test]
fn flip_swaps_the_ends_and_twice_restores() {
    let mut cursor = Cursor { head: 2, tail: 8 };
    cursor.flip();
    assert_eq!(cursor, Cursor { head: 8, tail: 2 });
    cursor.flip();
    assert_eq!(cursor, Cursor { head: 2, tail: 8 });
}

#[test]
fn clamp_moves_both_ends_inside() {
    let mut cursor = Cursor { head: 20, tail: 1 };
    cursor.clamp(4, 10);
    assert_eq!(cursor, Cursor { head: 10, tail: 4 });
    assert_eq!(clamp_value(5, 4, 10), 5);
    assert_eq!(clamp_value(0, 4, 10), 4);
}

#[test]
fn combine_covers_both_and_keeps_direction() {
    let mut forward = Cursor { head: 5, tail: 2 };
    forward.combine_with(Cursor { head: 4, tail: 9 });
    assert_eq!(forward, Cursor { head: 9, tail: 2 });

    let mut backward = Cursor { head: 2, tail: 5 };
    backward.combine_with(Cursor { head: 7, tail: 1 });
    assert_eq!(backward, Cursor { head: 1, tail: 7 });
}
