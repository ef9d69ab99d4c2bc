use hexapoda::cardinality::HasCardinality;
use hexapoda::utilities::{Floorable, IsOverlapping, SaturatingSubtract};
use hexapoda::window_size::WindowSize;
use hexapoda::{BYTES_OF_PADDING, BYTES_PER_CHUNK, BYTES_PER_LINE, CHUNKS_PER_LINE, LINES_OF_PADDING};

#[test]
fn flooring_to_a_step() {
    assert_eq!(37usize.floored_to_the_nearest(16), 32);
    assert_eq!(32usize.floored_to_the_nearest(16), 32);
    let mut value: usize = 15;
    value.floor_to_the_nearest(16);
    assert_eq!(value, 0);
}

#[test]
fn subtracting_stops_at_zero() {
    let mut value: usize = 5;
    value.saturating_subtract(3);
    assert_eq!(value, 2);
    value.saturating_subtract(3);
    assert_eq!(value, 0);
}

#[test]
fn ranges_overlap_when_an_end_of_the_other_is_inside() {
    assert!((0..=5).is_overlapping(&(5..=9)));
    assert!((3..=5).is_overlapping(&(0..=4)));
    assert!(!(0..=5).is_overlapping(&(6..=9)));
    assert!((0..=9).is_overlapping(&(2..=3)));
    assert!(!(2..=3).is_overlapping(&(0..=9)));
}

#[test]
fn a_byte_has_256_values() {
    assert_eq!(<u8 as HasCardinality>::CARDINALITY, 256);
}

#[test]
fn layout_constants() {
    assert_eq!(BYTES_PER_LINE, 16);
    assert_eq!(BYTES_PER_CHUNK * CHUNKS_PER_LINE, BYTES_PER_LINE);
    assert_eq!(BYTES_OF_PADDING, LINES_OF_PADDING * BYTES_PER_LINE);
}

#[test]
fn window_size_counts_hex_rows() {
    let window = WindowSize { rows: 30, covered_rows: 1 };
    assert_eq!(window.hex_rows(), 29);
    assert_eq!(window.visible_byte_count(), 464);
}
