use std::path::PathBuf;
use hexapoda::action::BufferAction;
use hexapoda::buffer::{Alert, Buffer, InspectionStatus, Mode, PartialAction};
use hexapoda::cursor::Cursor;
use hexapoda::window_size::WindowSize;

fn buffer(contents: Vec<u8>) -> Buffer {
    Buffer::new(PathBuf::from("data.bin"), "data.bin".to_string(), contents)
}

fn window() -> WindowSize {
    WindowSize { rows: 30, covered_rows: 1 }
}

fn small_window() -> WindowSize {
    WindowSize { rows: 12, covered_rows: 1 }
}

#[test]
fn a_new_buffer_starts_at_the_first_byte_saved() {
    let buffer = buffer(vec![1, 2, 3]);
    assert_eq!(buffer.file_name, "data.bin");
    assert_eq!(buffer.primary_cursor, Cursor::at(0));
    assert!(buffer.cursors.is_empty());
    assert!(buffer.marks.is_empty());
    assert_eq!(buffer.mode, Mode::Normal);
    assert_eq!(buffer.scroll_position, 0);
    assert!(buffer.all_changes_saved());
    assert!(!buffer.has_unsaved_changes());
    assert_eq!(buffer.last_saved_at, Some(0));
}

#[test]
fn max_contents_index_is_zero_when_empty() {
    assert_eq!(buffer(vec![]).max_contents_index(), 0);
    assert_eq!(buffer(vec![1, 2, 3]).max_contents_index(), 2);
}

#[test]
fn partial_action_names() {
    assert_eq!(PartialAction::try_from("goto"), Ok(PartialAction::Goto));
    assert_eq!(PartialAction::try_from("view"), Ok(PartialAction::View));
    assert_eq!(PartialAction::try_from("replace"), Ok(PartialAction::Replace));
    assert_eq!(PartialAction::try_from("space"), Ok(PartialAction::Space));
    assert_eq!(PartialAction::try_from("repeat"), Ok(PartialAction::Repeat));
    assert_eq!(PartialAction::try_from("till"), Ok(PartialAction::Till));
    assert_eq!(PartialAction::try_from("goto_offset"), Err(()));
    assert_eq!(PartialAction::try_from("Goto"), Err(()));
    assert_eq!(PartialAction::try_from(""), Err(()));
}

#[test]
fn overlapping_selections_merge() {
    let mut buffer = buffer(vec![0; 20]);
    buffer.primary_cursor = Cursor { head: 3, tail: 0 };
    buffer.cursors = vec![Cursor { head: 5, tail: 2 }, Cursor { head: 10, tail: 10 }];
    buffer.combine_cursors_if_overlapping();
    assert_eq!(buffer.primary_cursor, Cursor { head: 5, tail: 0 });
    assert_eq!(buffer.cursors, vec![Cursor { head: 10, tail: 10 }]);
}

#[test]
fn chains_of_overlapping_selections_merge() {
    let mut buffer = buffer(vec![0; 20]);
    buffer.primary_cursor = Cursor::at(19);
    buffer.cursors = vec![
        Cursor { head: 4, tail: 1 },
        Cursor { head: 6, tail: 3 },
        Cursor { head: 8, tail: 6 },
        Cursor { head: 12, tail: 12 },
    ];
    buffer.combine_cursors_if_overlapping();
    assert_eq!(buffer.primary_cursor, Cursor::at(19));
    assert_eq!(buffer.cursors, vec![Cursor { head: 8, tail: 1 }, Cursor { head: 12, tail: 12 }]);
}

#[test]
fn mode_and_partial_commands() {
    let mut buffer = buffer(vec![1]);
    buffer.execute(BufferAction::SelectMode, window());
    assert_eq!(buffer.mode, Mode::Select);
    buffer.execute(BufferAction::NormalMode, window());
    assert_eq!(buffer.mode, Mode::Normal);
    buffer.execute(BufferAction::Goto, window());
    assert_eq!(buffer.partial_action, Some(PartialAction::Goto));
    buffer.execute(BufferAction::To, window());
    assert_eq!(buffer.partial_action, Some(PartialAction::Till));
    buffer.execute(BufferAction::Replace, window());
    assert_eq!(buffer.partial_action, Some(PartialAction::Replace));
}

#[test]
fn replace_waits_only_in_a_buffer_with_bytes() {
    let mut empty = buffer(vec![]);
    empty.execute(BufferAction::Replace, window());
    assert_eq!(empty.partial_action, None);
}

#[test]
fn scrolling_down_drags_the_selection_along() {
    let mut buffer = buffer(vec![0; 1000]);
    buffer.execute(BufferAction::ScrollDown, small_window());
    assert_eq!(buffer.scroll_position, 16);
    assert_eq!(buffer.primary_cursor, Cursor::at(96));
    buffer.execute(BufferAction::ScrollUp, small_window());
    assert_eq!(buffer.scroll_position, 0);
    assert_eq!(buffer.primary_cursor, Cursor::at(80));
}

#[test]
fn scrolling_stops_at_the_end_of_the_contents() {
    let mut buffer = buffer(vec![0; 50]);
    buffer.execute(BufferAction::ScrollDown, small_window());
    assert_eq!(buffer.scroll_position, 0);
    assert_eq!(buffer.primary_cursor, Cursor::at(0));
    let mut longer = self::buffer(vec![0; 100]);
    longer.execute(BufferAction::ScrollDown, small_window());
    longer.execute(BufferAction::ScrollDown, small_window());
    assert_eq!(longer.scroll_position, 16);
}

#[test]
fn paging_down_moves_a_screen() {
    let mut buffer = buffer(vec![0; 1000]);
    buffer.execute(BufferAction::PageDown, small_window());
    assert_eq!(buffer.scroll_position, 176);
    assert_eq!(buffer.primary_cursor, Cursor::at(256));
    buffer.execute(BufferAction::PageUp, small_window());
    assert_eq!(buffer.scroll_position, 0);
}

#[test]
fn half_pages_move_the_selection() {
    let mut buffer = buffer(vec![0; 1000]);
    buffer.execute(BufferAction::PageCursorHalfDown, small_window());
    assert_eq!(buffer.primary_cursor, Cursor::at(96));
    buffer.execute(BufferAction::PageCursorHalfUp, small_window());
    assert_eq!(buffer.primary_cursor, Cursor::at(0));
}

#[test]
fn collapsing_and_flipping_selections() {
    let mut buffer = buffer(vec![0; 20]);
    buffer.primary_cursor = Cursor { head: 3, tail: 0 };
    buffer.cursors = vec![Cursor { head: 9, tail: 6 }];
    buffer.execute(BufferAction::FlipSelections, window());
    assert_eq!(buffer.primary_cursor, Cursor { head: 0, tail: 3 });
    assert_eq!(buffer.cursors, vec![Cursor { head: 6, tail: 9 }]);
    buffer.execute(BufferAction::FlipSelections, window());
    assert_eq!(buffer.primary_cursor, Cursor { head: 3, tail: 0 });
    assert_eq!(buffer.cursors, vec![Cursor { head: 9, tail: 6 }]);
    buffer.execute(BufferAction::CollapseSelection, window());
    assert_eq!(buffer.primary_cursor, Cursor::at(3));
    assert_eq!(buffer.cursors, vec![Cursor::at(9)]);
}

#[test]
fn rotating_selections() {
    let mut buffer = buffer(vec![0; 20]);
    buffer.primary_cursor = Cursor::at(5);
    buffer.cursors = vec![Cursor::at(2), Cursor::at(8)];
    buffer.execute(BufferAction::RotateSelectionsForward, window());
    assert_eq!(buffer.primary_cursor, Cursor::at(8));
    assert_eq!(buffer.cursors, vec![Cursor::at(2), Cursor::at(5)]);
    buffer.execute(BufferAction::RotateSelectionsForward, window());
    assert_eq!(buffer.primary_cursor, Cursor::at(2));
    assert_eq!(buffer.cursors, vec![Cursor::at(5), Cursor::at(8)]);
    buffer.execute(BufferAction::RotateSelectionsBackward, window());
    assert_eq!(buffer.primary_cursor, Cursor::at(8));
    assert_eq!(buffer.cursors, vec![Cursor::at(2), Cursor::at(5)]);
}

#[test]
fn keeping_and_removing_the_primary_selection() {
    let mut buffer = buffer(vec![0; 20]);
    buffer.primary_cursor = Cursor::at(5);
    buffer.cursors = vec![Cursor::at(2), Cursor::at(8)];
    buffer.execute(BufferAction::RemovePrimarySelection, window());
    assert_eq!(buffer.primary_cursor, Cursor::at(8));
    assert_eq!(buffer.cursors, vec![Cursor::at(2)]);
    buffer.execute(BufferAction::KeepPrimarySelection, window());
    assert_eq!(buffer.primary_cursor, Cursor::at(8));
    assert!(buffer.cursors.is_empty());
    buffer.execute(BufferAction::RemovePrimarySelection, window());
    assert_eq!(buffer.primary_cursor, Cursor::at(8));
}

#[test]
fn copying_a_selection_to_the_next_line() {
    let mut buffer = buffer(vec![0; 64]);
    buffer.primary_cursor = Cursor { head: 1, tail: 0 };
    buffer.execute(BufferAction::CopySelectionOnNextLine, window());
    assert_eq!(buffer.primary_cursor, Cursor { head: 17, tail: 16 });
    assert_eq!(buffer.cursors, vec![Cursor { head: 1, tail: 0 }]);
}

#[test]
fn no_copy_past_the_end() {
    let mut buffer = buffer(vec![0; 20]);
    buffer.primary_cursor = Cursor::at(10);
    buffer.execute(BufferAction::CopySelectionOnNextLine, window());
    assert_eq!(buffer.primary_cursor, Cursor::at(10));
    assert!(buffer.cursors.is_empty());
}

#[test]
fn splitting_selections_into_pieces() {
    let mut buffer = buffer(vec![0; 20]);
    buffer.primary_cursor = Cursor { head: 3, tail: 0 };
    buffer.cursors = vec![Cursor { head: 11, tail: 8 }];
    buffer.execute(BufferAction::SplitSelectionsInto2s, window());
    assert_eq!(buffer.primary_cursor, Cursor { head: 1, tail: 0 });
    assert_eq!(
        buffer.cursors,
        vec![Cursor { head: 3, tail: 2 }, Cursor { head: 9, tail: 8 }, Cursor { head: 11, tail: 10 }]
    );
}

#[test]
fn splitting_needs_whole_pieces() {
    let mut buffer = buffer(vec![0; 20]);
    buffer.primary_cursor = Cursor { head: 2, tail: 0 };
    buffer.execute(BufferAction::SplitSelectionsInto2s, window());
    assert_eq!(buffer.alert_message, Some(Alert::NotAllMultipleOf(2)));
    assert_eq!(buffer.primary_cursor, Cursor { head: 2, tail: 0 });
}

#[test]
fn jumping_to_the_offset_under_the_selection() {
    let mut buffer = buffer(vec![3, 0, 7, 0, 9, 0, 0, 0]);
    buffer.cursors = vec![Cursor::at(2)];
    buffer.execute(BufferAction::JumpToSelectedOffset, window());
    assert_eq!(buffer.primary_cursor, Cursor::at(3));
    assert_eq!(buffer.cursors, vec![Cursor::at(7)]);
}

#[test]
fn jumping_to_a_little_endian_offset() {
    let mut contents = vec![0u8; 400];
    contents[0] = 0x2c;
    contents[1] = 0x01;
    let mut buffer = buffer(contents);
    buffer.primary_cursor = Cursor { head: 1, tail: 0 };
    buffer.execute(BufferAction::JumpToSelectedOffset, window());
    assert_eq!(buffer.primary_cursor, Cursor::at(0x12c));
}

#[test]
fn jumping_needs_valid_offsets() {
    let mut buffer = buffer(vec![200, 1]);
    buffer.execute(BufferAction::JumpToSelectedOffset, window());
    assert_eq!(buffer.alert_message, Some(Alert::SelectionNotValidOffset));
    assert_eq!(buffer.primary_cursor, Cursor::at(0));

    let mut buffer2 = self::buffer(vec![1, 200]);
    buffer2.cursors = vec![Cursor::at(1)];
    buffer2.execute(BufferAction::JumpToSelectedOffset, window());
    assert_eq!(buffer2.alert_message, Some(Alert::NotAllSelectionsValidOffsets));
    assert_eq!(buffer2.cursors, vec![Cursor::at(1)]);
}

#[test]
fn jumping_relative_to_the_mark_before() {
    let mut buffer = buffer(vec![0, 0, 0, 0, 0, 2, 0, 0]);
    buffer.primary_cursor = Cursor::at(4);
    buffer.execute(BufferAction::ToggleMark, window());
    buffer.primary_cursor = Cursor::at(5);
    buffer.execute(BufferAction::JumpToSelectedOffsetRelativeToMark, window());
    assert_eq!(buffer.primary_cursor, Cursor::at(6));
}

#[test]
fn jumping_relative_to_a_mark_past_the_end_fails() {
    let mut buffer = buffer(vec![0, 0, 0, 9]);
    buffer.primary_cursor = Cursor::at(3);
    buffer.execute(BufferAction::JumpToSelectedOffsetRelativeToMark, window());
    assert_eq!(buffer.alert_message, Some(Alert::SelectionNotValidOffset));
}

#[test]
fn toggling_marks_twice_restores_them() {
    let mut buffer = buffer(vec![0; 20]);
    buffer.primary_cursor = Cursor { head: 7, tail: 3 };
    buffer.cursors = vec![Cursor::at(12)];
    buffer.execute(BufferAction::ToggleMark, window());
    assert!(buffer.marks.contains(&3));
    assert!(buffer.marks.contains(&12));
    assert_eq!(buffer.marks.len(), 2);
    assert_eq!(buffer.sorted_marks(), vec![3, 12]);
    buffer.execute(BufferAction::ToggleMark, window());
    assert!(buffer.marks.is_empty());
}

#[test]
fn moving_till_a_mark() {
    let mut buffer = buffer(vec![0; 8]);
    buffer.primary_cursor = Cursor::at(3);
    buffer.execute(BufferAction::ToggleMark, window());
    buffer.primary_cursor = Cursor::at(0);
    buffer.execute(BufferAction::FindTillMark, window());
    assert_eq!(buffer.primary_cursor, Cursor { head: 2, tail: 0 });
    buffer.execute(BufferAction::ExtendTillMark, window());
    assert_eq!(buffer.primary_cursor, Cursor { head: 2, tail: 0 });
    buffer.primary_cursor = Cursor::at(4);
    buffer.execute(BufferAction::FindTillMark, window());
    assert_eq!(buffer.primary_cursor, Cursor { head: 7, tail: 4 });
}

#[test]
fn moving_till_a_null_or_ff_byte() {
    let mut buffer = buffer(vec![1, 2, 3, 0, 5, 0xff, 7]);
    buffer.execute(BufferAction::FindTillNull, window());
    assert_eq!(buffer.primary_cursor, Cursor { head: 2, tail: 0 });
    buffer.execute(BufferAction::ExtendTillFF, window());
    assert_eq!(buffer.primary_cursor, Cursor { head: 4, tail: 0 });
    buffer.execute(BufferAction::FindTillFF, window());
    assert_eq!(buffer.primary_cursor, Cursor::at(4));
    buffer.primary_cursor = Cursor::at(5);
    buffer.execute(BufferAction::FindTillNull, window());
    assert_eq!(buffer.primary_cursor, Cursor::at(5));
}

#[test]
fn aligning_the_view() {
    let mut buffer = buffer(vec![0; 2000]);
    buffer.primary_cursor = Cursor::at(1000);
    buffer.execute(BufferAction::AlignViewTop, window());
    assert_eq!(buffer.scroll_position, 992);
    buffer.execute(BufferAction::AlignViewCenter, window());
    assert_eq!(buffer.scroll_position, 992 - 224);
    buffer.execute(BufferAction::AlignViewBottom, window());
    assert_eq!(buffer.scroll_position, 992 - (464 - 96));
}

#[test]
fn saving_marks_the_buffer_saved() {
    let mut buffer = buffer(vec![1, 2, 3]);
    buffer.execute(BufferAction::Delete, window());
    assert!(buffer.has_unsaved_changes());
    buffer.execute(BufferAction::Save, window());
    assert!(buffer.all_changes_saved());
    assert_eq!(buffer.last_saved_at, Some(1));
}

fn shows_the_primary_head(buffer: &Buffer, window_size: WindowSize) -> bool {
    let visible = window_size.visible_byte_count();
    buffer.scroll_position % 16 == 0
        && buffer.scroll_position <= buffer.primary_cursor.head
        && buffer.primary_cursor.head < buffer.scroll_position + visible
        && buffer.primary_cursor.head < buffer.contents.len().max(1)
        && buffer.primary_cursor.tail < buffer.contents.len().max(1)
}

#[test]
fn commands_keep_the_view_on_the_primary_head() {
    let mut contents: Vec<u8> = (0..=255).cycle().take(3000).collect();
    contents[1500] = 0;
    let mut buffer = buffer(contents);
    let actions = [
        BufferAction::CopySelectionOnNextLine,
        BufferAction::RotateSelectionsForward,
        BufferAction::ToggleMark,
        BufferAction::SplitSelectionsInto1s,
        BufferAction::JumpToSelectedOffset,
        BufferAction::FindTillNull,
        BufferAction::FlipSelections,
        BufferAction::AlignViewCenter,
        BufferAction::RotateSelectionsBackward,
        BufferAction::Delete,
        BufferAction::Undo,
        BufferAction::Redo,
        BufferAction::ExtendTillFF,
        BufferAction::AlignViewBottom,
        BufferAction::CollapseSelection,
        BufferAction::KeepPrimarySelection,
        BufferAction::AlignViewTop,
        BufferAction::FindTillMark,
    ];
    for action in actions {
        buffer.execute(action, window());
        assert!(shows_the_primary_head(&buffer, window()), "{action:?}");
    }
}

#[test]
fn scrolling_can_merge_the_primary_selection_off_screen() {
    let mut buffer = buffer(vec![0; 1000]);
    buffer.cursors = vec![Cursor { head: 400, tail: 96 }];
    buffer.execute(BufferAction::ScrollDown, small_window());
    assert_eq!(buffer.scroll_position, 16);
    assert_eq!(buffer.primary_cursor, Cursor { head: 400, tail: 96 });
    assert!(buffer.cursors.is_empty());
}

#[test]
fn a_buffer_is_named_after_the_last_component_of_its_path() {
    let buffer = Buffer::from_path(PathBuf::from("/tmp/some/dir/image.png"), vec![1, 2]).unwrap();
    assert_eq!(buffer.file_name, "image.png");
    assert_eq!(buffer.file_path, PathBuf::from("/tmp/some/dir/image.png"));
    assert_eq!(buffer.contents, vec![1, 2]);
    assert!(buffer.all_changes_saved());
    assert!(Buffer::from_path(PathBuf::from("/"), vec![]).is_none());
    assert!(Buffer::from_path(PathBuf::from("dir/.."), vec![]).is_none());
}

#[test]
fn rotating_forward_then_backward_restores_the_selections() {
    for primary in [0usize, 3, 7, 12] {
        let mut buffer = buffer(vec![0; 20]);
        buffer.primary_cursor = Cursor::at(primary);
        buffer.cursors = vec![Cursor { head: 2, tail: 1 }, Cursor::at(5), Cursor { head: 9, tail: 11 }];
        buffer.execute(BufferAction::RotateSelectionsForward, window());
        buffer.execute(BufferAction::RotateSelectionsBackward, window());
        assert_eq!(buffer.primary_cursor, Cursor::at(primary));
        assert_eq!(buffer.cursors, vec![Cursor { head: 2, tail: 1 }, Cursor::at(5), Cursor { head: 9, tail: 11 }]);
    }
}

#[test]
fn switching_inspection_off_needs_no_bytes() {
    let mut buffer = buffer(vec![]);
    buffer.inspection_status = Some(InspectionStatus::Normal);
    buffer.execute(BufferAction::InspectSelection, window());
    assert_eq!(buffer.inspection_status, None);
    buffer.inspection_status = Some(InspectionStatus::ColorsOnly);
    buffer.execute(BufferAction::InspectSelectionColor, window());
    assert_eq!(buffer.inspection_status, None);
}

#[test]
fn selections_with_the_same_head_keep_their_order() {
    let mut buffer = buffer(vec![0; 20]);
    buffer.primary_cursor = Cursor { head: 5, tail: 9 };
    buffer.cursors = vec![Cursor { head: 5, tail: 1 }, Cursor::at(8)];
    buffer.execute(BufferAction::RotateSelectionsBackward, window());
    assert_eq!(buffer.primary_cursor, Cursor::at(8));
    assert_eq!(buffer.cursors, vec![Cursor { head: 5, tail: 1 }, Cursor { head: 5, tail: 9 }]);
}
