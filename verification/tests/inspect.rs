use std::path::PathBuf;
use hexapoda::action::BufferAction;
use hexapoda::buffer::inspect::{inspect, inspect_color};
use hexapoda::buffer::{Buffer, InspectionStatus};
use hexapoda::cursor::Cursor;
use hexapoda::popup::{FixedPointFormat, InspectLine, Popup};
use hexapoda::window_size::WindowSize;

fn buffer(contents: Vec<u8>) -> Buffer {
    Buffer::new(PathBuf::from("data.bin"), "data.bin".to_string(), contents)
}

fn window() -> WindowSize {
    WindowSize { rows: 30, covered_rows: 1 }
}

#[test]
fn inspecting_two_ascii_bytes() {
    let lines = inspect(&[0x41, 0x42]);
    assert_eq!(lines.len(), 6);
    assert!(matches!(lines[0], InspectLine::Nat(0x4241)));
    match &lines[1] {
        InspectLine::Utf8(text) => assert_eq!(*text, vec!['A', 'B']),
        other => panic!("expected text, got {other:?}"),
    }
    assert!(matches!(lines[2], InspectLine::FixedPoint { format: FixedPointFormat::Unsigned124, raw: 0x4241 }));
    assert!(matches!(lines[3], InspectLine::FixedPoint { format: FixedPointFormat::Unsigned88, raw: 0x4241 }));
    assert!(matches!(lines[4], InspectLine::FixedPoint { format: FixedPointFormat::Unsigned412, raw: 0x4241 }));
    assert!(matches!(lines[5], InspectLine::Color555 { red: 8, green: 144, blue: 128 }));
}

#[test]
fn inspecting_one_byte_with_the_sign_bit() {
    let lines = inspect(&[0xC8]);
    assert_eq!(lines.len(), 3);
    assert!(matches!(lines[0], InspectLine::Int(-56)));
    assert!(matches!(lines[1], InspectLine::Nat(200)));
    assert!(matches!(lines[2], InspectLine::Binary { upper: 0b1100, lower: 0b1000 }));
}

#[test]
fn inspecting_four_bytes() {
    let lines = inspect(&[0x00, 0x00, 0x00, 0x80]);
    assert!(matches!(lines[0], InspectLine::Int(-2147483648)));
    assert!(matches!(lines[1], InspectLine::Nat(0x8000_0000)));
    assert!(matches!(lines[2], InspectLine::FixedPoint { format: FixedPointFormat::Signed2012, raw: -2147483648 }));
    assert!(matches!(lines[3], InspectLine::FixedPoint { format: FixedPointFormat::Unsigned2012, raw: 0x8000_0000 }));
    assert!(matches!(lines[4], InspectLine::FixedPoint { format: FixedPointFormat::Signed1616, raw: -2147483648 }));
    assert!(matches!(lines[5], InspectLine::FixedPoint { format: FixedPointFormat::Unsigned1616, raw: 0x8000_0000 }));
    assert_eq!(lines.len(), 6);
}

#[test]
fn text_preview_drops_trailing_nuls_and_refuses_control_characters() {
    let lines = inspect(&[b'h', b'i', 0, 0, 0]);
    let texts: Vec<&Vec<char>> = lines
        .iter()
        .filter_map(|line| match line {
            InspectLine::Utf8(text) => Some(text),
            _ => None,
        })
        .collect();
    assert_eq!(texts, vec![&vec!['h', 'i']]);

    let with_escape = inspect(&[b'h', 0x1b, b'i']);
    assert!(!with_escape.iter().any(|line| matches!(line, InspectLine::Utf8(_))));

    let invalid = inspect(&[0xff, 0xfe, 0xfd]);
    assert!(!invalid.iter().any(|line| matches!(line, InspectLine::Utf8(_))));
}

#[test]
fn three_bytes_are_a_colour() {
    let lines = inspect_color(&[1, 2, 3]);
    assert_eq!(lines.len(), 1);
    assert!(matches!(lines[0], InspectLine::Color888 { red: 1, green: 2, blue: 3 }));
    assert!(inspect_color(&[0xff, 0xff]).is_empty());
    assert!(inspect_color(&[1, 2, 3, 4]).is_empty());
}

#[test]
fn inspection_popups_are_ordered_by_offset() {
    let mut buffer = buffer(vec![0, 10, 0, 0, 0, 200]);
    buffer.primary_cursor = Cursor::at(5);
    buffer.cursors = vec![Cursor::at(1)];
    buffer.execute(BufferAction::InspectSelection, window());
    assert_eq!(buffer.inspection_status, Some(InspectionStatus::Normal));
    let offsets: Vec<usize> = buffer.popups.iter().map(|popup: &Popup| popup.at).collect();
    assert_eq!(offsets, vec![1, 5]);
    assert_eq!(buffer.popups[0].lines.len(), 2);
    assert_eq!(buffer.popups[1].lines.len(), 3);
    assert!(buffer.popups.iter().all(|popup| !popup.primary));

    buffer.execute(BufferAction::InspectSelection, window());
    assert_eq!(buffer.inspection_status, None);
    assert_eq!(buffer.popups.len(), 2);
}

#[test]
fn nothing_to_show_leaves_inspection_off() {
    let mut buffer = buffer(vec![0xff, 0xff]);
    buffer.primary_cursor = Cursor { head: 1, tail: 0 };
    buffer.execute(BufferAction::InspectSelectionColor, window());
    assert!(buffer.popups.is_empty());
    assert_eq!(buffer.inspection_status, None);

    let mut colors = self::buffer(vec![0x1f, 0x00, 7]);
    colors.primary_cursor = Cursor { head: 1, tail: 0 };
    colors.execute(BufferAction::InspectSelectionColor, window());
    assert_eq!(colors.inspection_status, Some(InspectionStatus::ColorsOnly));
    assert_eq!(colors.popups.len(), 1);
    assert!(matches!(colors.popups[0].lines[0], InspectLine::Color555 { red: 248, green: 0, blue: 0 }));
}

#[test]
fn popups_can_be_marked_primary() {
    let popup = Popup::new(4, inspect(&[1])).as_primary();
    assert_eq!(popup.at, 4);
    assert!(popup.primary);
    assert_eq!(popup.lines.len(), 2);
}
