use vstd::prelude::*;

pub mod action;
pub mod buffer;
pub mod bytes;
pub mod cardinality;
pub mod characters;
pub mod cursor;
pub mod editor;
pub mod edit_action;
pub mod key;
pub mod popup;
pub mod sorting;
pub mod utilities;
pub mod window_size;

verus! {

/// Number of bytes shown on one line of the hex view.
pub const BYTES_PER_LINE: usize = 16;

/// Bytes in one group of the hex view.
pub const BYTES_PER_CHUNK: usize = 4;

pub const CHUNKS_PER_LINE: usize = 4;

/// Lines kept between the primary selection and the top or bottom edge of
/// the screen while scrolling, when the screen is tall enough.
pub const LINES_OF_PADDING: usize = 5;

pub const BYTES_OF_PADDING: usize = 80;

} // verus!
