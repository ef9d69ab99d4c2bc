use std::path::PathBuf;
use hexapoda::action::AppAction;
use hexapoda::buffer::{Alert, Buffer};
use hexapoda::cursor::Cursor;
use hexapoda::editor::App;
use hexapoda::window_size::WindowSize;

fn buffer(name: &str, contents: Vec<u8>) -> Buffer {
    Buffer::new(PathBuf::from(name), name.to_string(), contents)
}

fn window() -> WindowSize {
    WindowSize { rows: 30, covered_rows: 1 }
}

#[test]
fn an_editor_needs_a_buffer() {
    assert!(App::new(Vec::new(), 30).is_none());
    let app = App::new(vec![buffer("a", vec![1])], 30).unwrap();
    assert_eq!(app.current_buffer_index, 0);
    assert_eq!(app.window_size, WindowSize { rows: 30, covered_rows: 1 });
    assert!(!app.should_quit);
    assert_eq!(app.current_buffer().file_name, "a");
}

#[test]
fn buffers_are_cycled_in_both_directions() {
    let mut app = App::new(
        vec![buffer("a", vec![1]), buffer("b", vec![2]), buffer("c", vec![3])],
        30,
    )
    .unwrap();
    app.previous_buffer();
    assert_eq!(app.current_buffer_index, 2);
    app.next_buffer();
    assert_eq!(app.current_buffer_index, 0);
    app.next_buffer();
    app.next_buffer();
    assert_eq!(app.current_buffer().file_name, "c");
    app.next_buffer();
    assert_eq!(app.current_buffer_index, 0);
    app.next_buffer();
    app.previous_buffer();
    assert_eq!(app.current_buffer_index, 0);
}

#[test]
fn quitting_when_everything_is_saved() {
    let mut app = App::new(vec![buffer("a", vec![1]), buffer("b", vec![2])], 30).unwrap();
    app.execute(AppAction::QuitIfSaved);
    assert!(app.should_quit);
}

#[test]
fn unsaved_changes_block_quitting() {
    let mut changed = buffer("b", vec![1, 2, 3]);
    changed.delete(window());
    assert!(changed.has_unsaved_changes());
    let mut app = App::new(vec![buffer("a", vec![1]), changed], 30).unwrap();
    app.quit_if_saved();
    assert!(!app.should_quit);
    assert_eq!(app.buffers[0].alert_message, Some(Alert::UnsavedChanges));
    assert_eq!(app.buffers[1].alert_message, None);
    app.execute(AppAction::Quit);
    assert!(app.should_quit);
}

#[test]
fn yank_copies_every_selection() {
    let mut first = buffer("a", vec![10, 11, 12, 13, 14, 15]);
    first.primary_cursor = Cursor { head: 2, tail: 1 };
    first.cursors = vec![Cursor { head: 4, tail: 4 }, Cursor { head: 5, tail: 5 }];
    let mut app = App::new(vec![first], 30).unwrap();
    app.execute(AppAction::Yank);
    assert_eq!(app.primary_cursor_register, vec![11, 12]);
    assert_eq!(app.other_cursor_registers, vec![vec![14], vec![15]]);
    assert_eq!(app.buffers[0].alert_message, Some(Alert::Yanked(3)));
}

#[test]
fn yank_of_a_single_selection() {
    let mut app = App::new(vec![buffer("a", vec![10, 11])], 30).unwrap();
    app.yank();
    assert_eq!(app.primary_cursor_register, vec![10]);
    assert!(app.other_cursor_registers.is_empty());
    assert_eq!(app.buffers[0].alert_message, Some(Alert::Yanked(1)));
}
