use std::path::PathBuf;
use hexapoda::action::{AppAction, Binding, BufferAction};
use hexapoda::buffer::keys::repeat_counts;
use hexapoda::buffer::{Alert, Buffer, InspectionStatus, PartialAction, Position};
use hexapoda::cursor::Cursor;
use hexapoda::key::Key;
use hexapoda::window_size::WindowSize;

fn buffer(contents: Vec<u8>) -> Buffer {
    Buffer::new(PathBuf::from("data.bin"), "data.bin".to_string(), contents)
}

fn window() -> WindowSize {
    WindowSize { rows: 30, covered_rows: 1 }
}

#[test]
fn typing_a_hex_offset_and_jumping_to_it() {
    let mut buffer = buffer(vec![0; 300]);
    buffer.cursors = vec![Cursor::at(5)];
    buffer.partial_action = Some(PartialAction::GotoOffset);
    buffer.handle_goto_offset(Key::Char('1'), window());
    assert_eq!(buffer.entry_text, vec!['1']);
    assert_eq!(buffer.entry_cursor_index, 1);
    assert_eq!(buffer.cursor_position, Some(Position { x: 10, y: 28 }));
    buffer.handle_goto_offset(Key::Char('2'), window());
    buffer.handle_goto_offset(Key::Left, window());
    buffer.handle_goto_offset(Key::Char('0'), window());
    assert_eq!(buffer.entry_text, vec!['1', '0', '2']);
    assert_eq!(buffer.entry_cursor_index, 2);
    buffer.handle_goto_offset(Key::Backspace, window());
    assert_eq!(buffer.entry_text, vec!['1', '2']);
    assert_eq!(buffer.entry_cursor_index, 1);
    buffer.handle_goto_offset(Key::Delete, window());
    assert_eq!(buffer.entry_text, vec!['1']);
    buffer.handle_goto_offset(Key::Right, window());
    assert_eq!(buffer.entry_cursor_index, 1);
    buffer.handle_goto_offset(Key::Char('F'), window());
    assert_eq!(buffer.entry_text, vec!['1', 'F']);
    buffer.handle_goto_offset(Key::Enter, window());
    assert_eq!(buffer.primary_cursor, Cursor::at(0x1f));
    assert!(buffer.cursors.is_empty());
    assert_eq!(buffer.partial_action, None);
    assert_eq!(buffer.cursor_position, None);
}

#[test]
fn an_offset_past_the_end_is_refused() {
    let mut buffer = buffer(vec![0; 10]);
    buffer.partial_action = Some(PartialAction::GotoOffset);
    buffer.handle_goto_offset(Key::Char('f'), window());
    buffer.handle_goto_offset(Key::Char('f'), window());
    buffer.handle_goto_offset(Key::Enter, window());
    assert_eq!(buffer.alert_message, Some(Alert::OffsetOutOfBounds));
    assert_eq!(buffer.primary_cursor, Cursor::at(0));
    assert_eq!(buffer.partial_action, None);
}

#[test]
fn other_keys_close_the_prompt() {
    let mut buffer = buffer(vec![0; 10]);
    buffer.partial_action = Some(PartialAction::GotoOffset);
    buffer.handle_goto_offset(Key::Char('z'), window());
    assert_eq!(buffer.partial_action, None);
    assert!(buffer.entry_text.is_empty());
    assert_eq!(buffer.cursor_position, None);
}

#[test]
fn typing_a_decimal_offset() {
    let mut buffer = buffer(vec![0; 300]);
    buffer.partial_action = Some(PartialAction::GotoDecimalOffset);
    buffer.handle_goto_decimal_offset(Key::Char('1'), window());
    assert_eq!(buffer.cursor_position, Some(Position { x: 8, y: 28 }));
    buffer.handle_goto_decimal_offset(Key::Char('a'), window());
    assert_eq!(buffer.partial_action, None);
    buffer.partial_action = Some(PartialAction::GotoDecimalOffset);
    buffer.handle_goto_decimal_offset(Key::Char('2'), window());
    assert_eq!(buffer.entry_text, vec!['1', '2']);
    buffer.handle_goto_decimal_offset(Key::Enter, window());
    assert_eq!(buffer.primary_cursor, Cursor::at(12));
}

#[test]
fn repeat_counts_come_from_the_registers() {
    assert_eq!(repeat_counts(&[3], &[vec![1, 1], vec![]]), Ok((3, vec![0x101, 0])));
    assert_eq!(repeat_counts(&[0; 12], &[]), Ok((0, vec![])));
    assert_eq!(repeat_counts(&[0, 0, 0, 0, 0, 0, 0, 0, 1], &[]), Err(Alert::RepeatCountTooLarge));
    assert_eq!(repeat_counts(&[1], &[vec![2], vec![0xff; 9]]), Err(Alert::RepeatCountTooLarge));
}

#[test]
fn a_long_prompt_text_with_the_cursor_at_its_start() {
    let mut buffer = buffer(vec![0; 300]);
    buffer.partial_action = Some(PartialAction::GotoOffset);
    buffer.entry_text = vec!['0'; 70_000];
    buffer.entry_cursor_index = 0;
    buffer.handle_goto_offset(Key::Char('a'), window());
    assert_eq!(buffer.entry_text.len(), 70_001);
    assert_eq!(buffer.entry_text[0], 'a');
    assert_eq!(buffer.entry_cursor_index, 1);
    assert_eq!(buffer.cursor_position, Some(Position { x: 10, y: 28 }));
}

#[test]
fn keys_go_to_the_pending_prompt() {
    let mut buffer = buffer(vec![0; 300]);
    buffer.alert_message = Some(Alert::OffsetOutOfBounds);
    buffer.partial_action = Some(PartialAction::GotoDecimalOffset);
    let result = buffer.handle_key(Key::Char('4'), None, window());
    assert_eq!(result, (None, true));
    assert_eq!(buffer.alert_message, None);
    assert_eq!(buffer.entry_text, vec!['4']);
    let result = buffer.handle_key(Key::Enter, Some(Binding::App(AppAction::Quit)), window());
    assert_eq!(result, (None, true));
    assert_eq!(buffer.primary_cursor, Cursor::at(4));
    assert_eq!(buffer.partial_action, None);
}

#[test]
fn bound_commands_run_outside_prompts() {
    let mut buffer = buffer(vec![1, 2, 3]);
    assert_eq!(buffer.handle_key(Key::Other, None, window()), (None, false));
    let result = buffer.handle_key(Key::Char('g'), Some(Binding::Buffer(BufferAction::Goto)), window());
    assert_eq!(result, (None, true));
    assert_eq!(buffer.partial_action, Some(PartialAction::Goto));
    let result = buffer.handle_key(Key::Char('o'), Some(Binding::GotoOffset), window());
    assert_eq!(result, (None, true));
    assert_eq!(buffer.partial_action, Some(PartialAction::GotoOffset));
    assert!(buffer.entry_text.is_empty());
    buffer.handle_key(Key::Char('2'), None, window());
    buffer.handle_key(Key::Enter, None, window());
    assert_eq!(buffer.primary_cursor, Cursor::at(2));

    buffer.execute(BufferAction::Goto, window());
    let result = buffer.handle_key(Key::Char('x'), None, window());
    assert_eq!(result, (None, true));
    assert_eq!(buffer.partial_action, None);

    let result = buffer.handle_key(Key::Char('q'), Some(Binding::App(AppAction::QuitIfSaved)), window());
    assert_eq!(result, (Some(AppAction::QuitIfSaved), true));
}

#[test]
fn commands_close_popups_and_inspection() {
    let mut buffer = buffer(vec![1, 2, 3]);
    buffer.handle_key(Key::Char('i'), Some(Binding::Buffer(BufferAction::InspectSelection)), window());
    assert_eq!(buffer.popups.len(), 1);
    assert_eq!(buffer.inspection_status, Some(InspectionStatus::Normal));
    buffer.handle_key(Key::Char(';'), Some(Binding::Buffer(BufferAction::CollapseSelection)), window());
    assert!(buffer.popups.is_empty());
    assert_eq!(buffer.inspection_status, None);
}

#[test]
fn only_cursor_movements_can_be_repeated() {
    let mut buffer = buffer(vec![1, 2, 3]);
    buffer.execute(BufferAction::Repeat, window());
    buffer.handle_key(Key::Char('d'), Some(Binding::Buffer(BufferAction::Delete)), window());
    assert_eq!(buffer.alert_message, Some(Alert::OnlyCursorActionsRepeatable));
    assert_eq!(buffer.partial_action, None);
    assert_eq!(buffer.contents, vec![1, 2, 3]);
}

#[test]
fn keys_reach_a_pending_replacement() {
    let mut buffer = buffer(vec![1, 2, 3]);
    buffer.execute(BufferAction::Replace, window());
    buffer.handle_key(Key::Char('f'), None, window());
    let result = buffer.handle_key(Key::Char('f'), None, window());
    assert_eq!(result, (None, true));
    assert_eq!(buffer.contents, vec![0xff, 2, 3]);
}
