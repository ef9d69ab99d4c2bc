use vstd::prelude::*;
use crate::{BYTES_OF_PADDING, BYTES_PER_LINE, LINES_OF_PADDING};
use crate::buffer::{Buffer, Mode};
use crate::cursor::{Cursor, clamp_to, clamp_value};
use crate::utilities::Floorable;
use crate::window_size::WindowSize;

verus! {

/// `value` rounded down to a whole line.
pub open spec fn line_floor(value: int) -> int {
    value - value % 16
}

/// `a - b`, or 0 when `b` is larger.
pub open spec fn minus(a: int, b: int) -> int {
    if a >= b {
        a - b
    } else {
        0
    }
}

pub open spec fn smaller(a: int, b: int) -> int {
    if a <= b {
        a
    } else {
        b
    }
}

/// Bytes kept free at the bottom of the screen: five lines, on screens of
/// more than ten hex rows.
pub open spec fn bottom_padding_of(window_size: WindowSize) -> int {
    if window_size.spec_hex_rows() <= 10 {
        0
    } else {
        80
    }
}

/// Bytes kept free at the top of the screen: five lines, on screens of more
/// than ten hex rows, unless the view is at the very start.
pub open spec fn top_padding_of(scroll_position: int, window_size: WindowSize) -> int {
    if window_size.spec_hex_rows() <= 10 || scroll_position == 0 {
        0
    } else {
        80
    }
}

/// The scroll position that shows the line of `head` near the top.
pub open spec fn aligned_top(head: int, scroll_position: int, window_size: WindowSize) -> int {
    minus(line_floor(head), top_padding_of(scroll_position, window_size))
}

/// The scroll position that shows the line of `head` near the bottom, but no
/// further than the line of the last byte.
pub open spec fn aligned_bottom(head: int, max_index: int, window_size: WindowSize) -> int {
    smaller(
        minus(
            line_floor(head),
            minus(window_size.spec_visible_byte_count(), 16 + bottom_padding_of(window_size)),
        ),
        line_floor(max_index),
    )
}

/// The scroll position that shows the line of `head` in the middle.
pub open spec fn aligned_center(head: int, window_size: WindowSize) -> int {
    minus(line_floor(head), line_floor(window_size.spec_visible_byte_count() / 2))
}

/// The scroll position moved back so that the view does not run past the
/// contents (with bottom padding).
pub open spec fn clamped_to_contents(scroll_position: int, max_index: int, window_size: WindowSize) -> int {
    smaller(scroll_position, minus(line_floor(max_index), bottom_padding_of(window_size)))
}

/// The scroll position moved, if needed, so that `head` is on screen
/// outside the padding.
pub open spec fn clamped_to_head(
    scroll_position: int,
    head: int,
    max_index: int,
    window_size: WindowSize,
) -> int {
    if head < scroll_position + top_padding_of(scroll_position, window_size) {
        aligned_top(head, scroll_position, window_size)
    } else if head > scroll_position + minus(
        window_size.spec_visible_byte_count() - 1,
        bottom_padding_of(window_size),
    ) {
        aligned_bottom(head, max_index, window_size)
    } else {
        scroll_position
    }
}

/// The first offset where the primary head may be, for the scroll position.
pub open spec fn screen_min(scroll_position: int, window_size: WindowSize) -> int {
    scroll_position + top_padding_of(scroll_position, window_size)
}

/// The last offset where the primary head may be, for the scroll position.
pub open spec fn screen_max(scroll_position: int, window_size: WindowSize) -> int {
    scroll_position + minus(
        minus(window_size.spec_visible_byte_count(), bottom_padding_of(window_size)),
        16,
    )
}

/// A window with at least one hex row, at most as tall as a terminal can be.
pub open spec fn usable(window_size: WindowSize) -> bool {
    window_size.covered_rows < window_size.rows <= 0xFFFF
}

/// What every key press leaves true: the view starts at a whole line, inside
/// the contents, and shows the primary head.
pub open spec fn view_shows_head(
    scroll_position: int,
    head: int,
    max_index: int,
    window_size: WindowSize,
) -> bool {
    &&& scroll_position % 16 == 0
    &&& scroll_position <= max_index
    &&& scroll_position <= head < scroll_position + window_size.spec_visible_byte_count()
}

/// Rounding down to a line gives a multiple of 16 less than 16 below.
pub proof fn lemma_line_floor(value: int)
    requires
        value >= 0,
    ensures
        line_floor(value) % 16 == 0,
        0 <= line_floor(value) <= value < line_floor(value) + 16,
{
}

/// `cursor` moved onto the screen that starts at `scroll_position`; in
/// select mode only its head moves.
pub open spec fn cursor_on_screen(
    cursor: Cursor,
    mode: Mode,
    scroll_position: int,
    window_size: WindowSize,
) -> Cursor {
    let min = screen_min(scroll_position, window_size) as usize;
    let max = screen_max(scroll_position, window_size) as usize;
    Cursor {
        head: clamp_to(cursor.head, min, max),
        tail: if mode == Mode::Select {
            cursor.tail
        } else {
            clamp_to(cursor.tail, min, max)
        },
    }
}

/// A usable window shows at least one line, and at least eleven lines when
/// it has padding.
pub proof fn lemma_visible_bytes(window_size: WindowSize)
    requires
        usable(window_size),
    ensures
        16 <= window_size.spec_visible_byte_count() <= 0xFFFF * 16,
        window_size.spec_visible_byte_count() % 16 == 0,
        bottom_padding_of(window_size) == 80 ==> window_size.spec_visible_byte_count() >= 176,
{
    let rows = window_size.spec_hex_rows();
    assert(1 <= rows <= 0xFFFF);
    assert(16 <= rows * 16 <= 0xFFFF * 16) by (nonlinear_arith)
        requires
            1 <= rows <= 0xFFFF,
    ;
    assert(rows > 10 ==> rows * 16 >= 176) by (nonlinear_arith);
    assert((rows * 16) % 16 == 0) by (nonlinear_arith);
}

/// After scrolling to the primary head, the view lies inside the contents
/// and shows the head; it starts at a whole line if it did before.
pub proof fn lemma_clamped_to_head_shows_head(
    scroll_position: int,
    head: int,
    max_index: int,
    window_size: WindowSize,
)
    requires
        usable(window_size),
        0 <= scroll_position <= max_index,
        0 <= head <= max_index,
    ensures
        ({
            let clamped = clamped_to_head(scroll_position, head, max_index, window_size);
            &&& 0 <= clamped <= max_index
            &&& clamped <= head < clamped + window_size.spec_visible_byte_count()
            &&& scroll_position % 16 == 0 ==> view_shows_head(clamped, head, max_index, window_size)
        }),
{
    lemma_visible_bytes(window_size);
    lemma_line_floor(head);
    lemma_line_floor(max_index);
}

/// Scrolling to the primary head keeps the view starting at a whole line,
/// wherever the head is.
pub proof fn lemma_clamped_to_head_whole_line(
    scroll_position: int,
    head: int,
    max_index: int,
    window_size: WindowSize,
)
    requires
        usable(window_size),
        scroll_position % 16 == 0,
        head >= 0,
        max_index >= 0,
    ensures
        clamped_to_head(scroll_position, head, max_index, window_size) % 16 == 0,
{
    lemma_visible_bytes(window_size);
    lemma_line_floor(head);
    lemma_line_floor(max_index);
}

/// The view does not run past the contents: its start is at most the line of
/// the last byte less the bottom padding.
pub open spec fn within_contents(scroll_position: int, max_index: int, window_size: WindowSize) -> bool {
    0 <= scroll_position <= minus(line_floor(max_index), bottom_padding_of(window_size))
}

/// Moving a selection onto a view that does not run past the contents keeps
/// it inside the contents.
pub proof fn lemma_on_screen_within(
    cursor: Cursor,
    mode: Mode,
    scroll_position: int,
    max_index: usize,
    window_size: WindowSize,
)
    requires
        usable(window_size),
        cursor.within(max_index),
        within_contents(scroll_position, max_index as int, window_size),
    ensures
        cursor_on_screen(cursor, mode, scroll_position, window_size).within(max_index),
        screen_min(scroll_position, window_size) <= screen_max(scroll_position, window_size),
{
    lemma_visible_bytes(window_size);
    lemma_line_floor(max_index as int);
}

/// Scrolling back to the contents gives a view that does not run past them.
pub proof fn lemma_clamped_within_contents(scroll_position: int, max_index: int, window_size: WindowSize)
    requires
        usable(window_size),
        scroll_position >= 0,
        max_index >= 0,
    ensures
        within_contents(
            clamped_to_contents(scroll_position, max_index, window_size),
            max_index,
            window_size,
        ),
        scroll_position % 16 == 0 ==> clamped_to_contents(scroll_position, max_index, window_size) % 16
            == 0,
{
    lemma_line_floor(max_index);
}

impl Buffer {
    /// The buffer fits in memory and the selections lie in the contents.
    pub open spec fn sizes_ok(&self, window_size: WindowSize) -> bool {
        &&& usable(window_size)
        &&& self.contents@.len() <= isize::MAX
        &&& self.cursors_in_bounds()
        &&& self.scroll_position <= self.max_index()
    }

    /// The buffer's state between key presses.
    pub open spec fn wf(&self, window_size: WindowSize) -> bool {
        &&& self.sizes_ok(window_size)
        &&& view_shows_head(
            self.scroll_position as int,
            self.primary_cursor.head as int,
            self.max_index() as int,
            window_size,
        )
    }

    pub fn bottom_padding(window_size: WindowSize) -> (padding: usize)
        requires
            usable(window_size),
        ensures
            padding == bottom_padding_of(window_size),
    {
        if window_size.hex_rows() <= LINES_OF_PADDING * 2 {
            0
        } else {
            BYTES_OF_PADDING
        }
    }

    pub fn top_padding(&self, window_size: WindowSize) -> (padding: usize)
        requires
            usable(window_size),
        ensures
            padding == top_padding_of(self.scroll_position as int, window_size),
    {
        if window_size.hex_rows() <= LINES_OF_PADDING * 2 || self.scroll_position == 0 {
            0
        } else {
            BYTES_OF_PADDING
        }
    }

    /// Scrolls back so that the view does not run past the contents.
    pub fn clamp_screen_to_contents(&mut self, window_size: WindowSize)
        requires
            usable(window_size),
        ensures
            final(self).scroll_position == clamped_to_contents(
                old(self).scroll_position as int,
                old(self).max_index() as int,
                window_size,
            ),
            *final(self) == (Buffer { scroll_position: final(self).scroll_position, ..*old(self) }),
    {
        let max_scroll_position = self.max_contents_index().floored_to_the_nearest(
            BYTES_PER_LINE,
        ).saturating_sub(Self::bottom_padding(window_size));
        if self.scroll_position > max_scroll_position {
            self.scroll_position = max_scroll_position;
        }
    }

    /// What `align_view_top` leaves, given the buffer before it.
    #[verifier::opaque]
    pub open spec fn align_view_top_effect(before: Buffer, after: Buffer, window_size: WindowSize) -> bool {
        &&& (after.scroll_position == aligned_top(
            before.primary_cursor.head as int,
            before.scroll_position as int,
            window_size,
        ))
        &&& (after == (Buffer { scroll_position: after.scroll_position, ..before }))
        &&& (before.sizes_ok(window_size) ==> after.sizes_ok(window_size))
        &&& (before.scroll_position % 16 == 0 ==> after.scroll_position % 16 == 0)
        &&& (before.wf(window_size) ==> after.wf(window_size))
    }

    /// Shows the line of the primary head near the top of the screen.
    pub fn align_view_top(&mut self, window_size: WindowSize)
        requires
            usable(window_size),
        ensures
            Self::align_view_top_effect(*old(self), *final(self), window_size),
    {
        proof {
            reveal(Buffer::align_view_top_effect);
        }
        self.scroll_position = self.primary_cursor.head.floored_to_the_nearest(
            BYTES_PER_LINE,
        ).saturating_sub(self.top_padding(window_size));
    }

    /// What `align_view_bottom` leaves, given the buffer before it.
    #[verifier::opaque]
    pub open spec fn align_view_bottom_effect(before: Buffer, after: Buffer, window_size: WindowSize) -> bool {
        &&& (after.scroll_position == aligned_bottom(
            before.primary_cursor.head as int,
            before.max_index() as int,
            window_size,
        ))
        &&& (after == (Buffer { scroll_position: after.scroll_position, ..before }))
        &&& (before.sizes_ok(window_size) ==> after.sizes_ok(window_size))
        &&& (before.scroll_position % 16 == 0 ==> after.scroll_position % 16 == 0)
        &&& (before.wf(window_size) ==> after.wf(window_size))
    }

    /// Shows the line of the primary head near the bottom of the screen.
    pub fn align_view_bottom(&mut self, window_size: WindowSize)
        requires
            usable(window_size),
        ensures
            Self::align_view_bottom_effect(*old(self), *final(self), window_size),
    {
        proof {
            reveal(Buffer::align_view_bottom_effect);
        }
        let from_head = self.primary_cursor.head.floored_to_the_nearest(BYTES_PER_LINE).saturating_sub(
            window_size.visible_byte_count().saturating_sub(
                BYTES_PER_LINE + Self::bottom_padding(window_size),
            ),
        );
        let last_line = self.max_contents_index().floored_to_the_nearest(BYTES_PER_LINE);
        self.scroll_position = if from_head <= last_line {
            from_head
        } else {
            last_line
        };
    }

    /// What `align_view_center` leaves, given the buffer before it.
    #[verifier::opaque]
    pub open spec fn align_view_center_effect(before: Buffer, after: Buffer, window_size: WindowSize) -> bool {
        &&& (after.scroll_position == aligned_center(
            before.primary_cursor.head as int,
            window_size,
        ))
        &&& (after == (Buffer { scroll_position: after.scroll_position, ..before }))
        &&& (before.sizes_ok(window_size) ==> after.sizes_ok(window_size))
        &&& (before.scroll_position % 16 == 0 ==> after.scroll_position % 16 == 0)
        &&& (before.wf(window_size) ==> after.wf(window_size))
    }

    /// Shows the line of the primary head in the middle of the screen.
    pub fn align_view_center(&mut self, window_size: WindowSize)
        requires
            usable(window_size),
        ensures
            Self::align_view_center_effect(*old(self), *final(self), window_size),
    {
        proof {
            reveal(Buffer::align_view_center_effect);
        }
        let half_a_screen = window_size.visible_byte_count() / 2;
        self.scroll_position = self.primary_cursor.head.floored_to_the_nearest(
            BYTES_PER_LINE,
        ).saturating_sub(half_a_screen.floored_to_the_nearest(BYTES_PER_LINE));
    }

    /// Scrolls, if needed, so that the primary head is on screen outside
    /// the padding.
    pub fn clamp_screen_to_primary_cursor(&mut self, window_size: WindowSize)
        requires
            usable(window_size),
            old(self).scroll_position <= isize::MAX,
        ensures
            final(self).scroll_position == clamped_to_head(
                old(self).scroll_position as int,
                old(self).primary_cursor.head as int,
                old(self).max_index() as int,
                window_size,
            ),
            *final(self) == (Buffer { scroll_position: final(self).scroll_position, ..*old(self) }),
    {
        proof {
            reveal(Buffer::align_view_top_effect);
            reveal(Buffer::align_view_bottom_effect);
        }
        if self.primary_cursor.head < self.scroll_position + self.top_padding(window_size) {
            self.align_view_top(window_size);
        } else if self.primary_cursor.head > self.scroll_position + (window_size.visible_byte_count()
            - 1).saturating_sub(Self::bottom_padding(window_size)) {
            self.align_view_bottom(window_size);
        }
    }

    /// Moves the primary selection onto the screen (outside the padding). In
    /// select mode only its head moves.
    pub fn clamp_primary_cursor_to_screen(&mut self, window_size: WindowSize)
        requires
            usable(window_size),
            old(self).scroll_position <= isize::MAX,
        ensures
            final(self).primary_cursor == cursor_on_screen(
                old(self).primary_cursor,
                old(self).mode,
                old(self).scroll_position as int,
                window_size,
            ),
            *final(self) == (Buffer { primary_cursor: final(self).primary_cursor, ..*old(self) }),
    {
        let min = self.scroll_position + self.top_padding(window_size);
        let max = self.scroll_position + window_size.visible_byte_count().saturating_sub(
            Self::bottom_padding(window_size),
        ).saturating_sub(BYTES_PER_LINE);
        if self.mode == Mode::Select {
            self.primary_cursor.head = clamp_value(self.primary_cursor.head, min, max);
        } else {
            self.primary_cursor.clamp(min, max);
        }
    }
}

} // verus!
