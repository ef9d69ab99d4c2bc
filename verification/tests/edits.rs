use std::path::PathBuf;
use hexapoda::action::BufferAction;
use hexapoda::buffer::{Buffer, PartialAction};
use hexapoda::cursor::Cursor;
use hexapoda::edit_action::EditAction;
use hexapoda::key::Key;
use hexapoda::window_size::WindowSize;

fn buffer(contents: Vec<u8>) -> Buffer {
    Buffer::new(PathBuf::from("data.bin"), "data.bin".to_string(), contents)
}

fn window() -> WindowSize {
    WindowSize { rows: 30, covered_rows: 1 }
}

#[test]
fn deleting_then_undoing_restores_the_bytes() {
    let mut buffer = buffer(vec![1, 2, 3, 4, 5]);
    buffer.primary_cursor = Cursor { head: 2, tail: 1 };
    buffer.execute(BufferAction::Delete, window());
    assert_eq!(buffer.contents, vec![1, 4, 5]);
    assert_eq!(buffer.primary_cursor, Cursor::at(1));
    assert!(buffer.has_unsaved_changes());
    assert_eq!(buffer.edit_history.len(), 1);
    match &buffer.edit_history[0] {
        EditAction::Delete { primary_cursor, primary_old_data, .. } => {
            assert_eq!(*primary_cursor, Cursor { head: 2, tail: 1 });
            assert_eq!(*primary_old_data, vec![2, 3]);
        },
        _ => panic!("a deletion was recorded as something else"),
    }

    buffer.execute(BufferAction::Undo, window());
    assert_eq!(buffer.contents, vec![1, 2, 3, 4, 5]);
    assert_eq!(buffer.primary_cursor, Cursor { head: 2, tail: 1 });
    assert_eq!(buffer.time_traveling, Some(0));
    assert!(buffer.all_changes_saved());

    buffer.execute(BufferAction::Redo, window());
    assert_eq!(buffer.contents, vec![1, 4, 5]);
    assert_eq!(buffer.time_traveling, None);
    assert!(buffer.has_unsaved_changes());
}

#[test]
fn undo_and_redo_with_nothing_to_do() {
    let mut buffer = buffer(vec![1, 2, 3]);
    buffer.execute(BufferAction::Undo, window());
    assert_eq!(buffer.contents, vec![1, 2, 3]);
    assert_eq!(buffer.time_traveling, None);
    buffer.execute(BufferAction::Redo, window());
    assert_eq!(buffer.contents, vec![1, 2, 3]);
}

#[test]
fn deleting_several_selections() {
    let mut buffer = buffer(vec![0, 1, 2, 3, 4, 5, 6, 7]);
    buffer.primary_cursor = Cursor::at(1);
    buffer.cursors = vec![Cursor { head: 5, tail: 4 }];
    buffer.execute(BufferAction::Delete, window());
    assert_eq!(buffer.contents, vec![0, 2, 3, 6, 7]);
    assert_eq!(buffer.primary_cursor, Cursor::at(1));
    assert_eq!(buffer.cursors, vec![Cursor::at(3)]);
    buffer.execute(BufferAction::Undo, window());
    assert_eq!(buffer.contents, vec![0, 1, 2, 3, 4, 5, 6, 7]);
    assert_eq!(buffer.cursors, vec![Cursor { head: 5, tail: 4 }]);
}

#[test]
fn deleting_in_an_empty_buffer_does_nothing() {
    let mut buffer = buffer(vec![]);
    buffer.execute(BufferAction::SelectMode, window());
    buffer.execute(BufferAction::Delete, window());
    assert!(buffer.contents.is_empty());
    assert!(buffer.edit_history.is_empty());
    assert!(buffer.all_changes_saved());
}

#[test]
fn a_new_edit_drops_the_undone_ones() {
    let mut buffer = buffer(vec![1, 2, 3, 4]);
    buffer.execute(BufferAction::Delete, window());
    buffer.execute(BufferAction::Delete, window());
    assert_eq!(buffer.contents, vec![3, 4]);
    buffer.execute(BufferAction::Undo, window());
    assert_eq!(buffer.contents, vec![2, 3, 4]);
    buffer.execute(BufferAction::Save, window());
    buffer.execute(BufferAction::Undo, window());
    assert_eq!(buffer.contents, vec![1, 2, 3, 4]);
    buffer.primary_cursor = Cursor::at(3);
    buffer.execute(BufferAction::Delete, window());
    assert_eq!(buffer.contents, vec![1, 2, 3]);
    assert_eq!(buffer.edit_history.len(), 1);
    assert_eq!(buffer.time_traveling, None);
    assert_eq!(buffer.last_saved_at, None);
    assert!(buffer.has_unsaved_changes());
}

#[test]
fn replacing_bytes_with_two_hex_digits() {
    let mut buffer = buffer(vec![1, 2, 3]);
    buffer.primary_cursor = Cursor { head: 1, tail: 0 };
    buffer.execute(BufferAction::Replace, window());
    buffer.handle_replace(Key::Char('4'), window());
    assert_eq!(buffer.partial_replace, Some(4));
    assert_eq!(buffer.partial_action, Some(PartialAction::Replace));
    assert_eq!(buffer.contents, vec![1, 2, 3]);
    buffer.handle_replace(Key::Char('A'), window());
    assert_eq!(buffer.contents, vec![0x4a, 0x4a, 3]);
    assert_eq!(buffer.partial_replace, None);
    assert_eq!(buffer.partial_action, None);
    assert_eq!(buffer.primary_cursor, Cursor { head: 1, tail: 0 });
    buffer.execute(BufferAction::Undo, window());
    assert_eq!(buffer.contents, vec![1, 2, 3]);
}

#[test]
fn other_keys_cancel_a_replacement() {
    let mut buffer = buffer(vec![1, 2, 3]);
    buffer.execute(BufferAction::Replace, window());
    buffer.handle_replace(Key::Char('4'), window());
    buffer.handle_replace(Key::Char('x'), window());
    assert_eq!(buffer.partial_replace, None);
    assert_eq!(buffer.partial_action, None);
    assert_eq!(buffer.contents, vec![1, 2, 3]);
    assert!(buffer.edit_history.is_empty());
}
