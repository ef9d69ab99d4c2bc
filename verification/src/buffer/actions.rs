use vstd::prelude::*;
use crate::{BYTES_PER_LINE};
use crate::buffer::{Alert, Buffer, Mode, PartialAction, all_within, merged, same_except_view, selected};
use crate::buffer::screen::{
    clamped_to_contents, clamped_to_head, cursor_on_screen, lemma_clamped_to_head_shows_head, lemma_clamped_to_head_whole_line,
    lemma_clamped_within_contents, lemma_line_floor, lemma_on_screen_within, lemma_visible_bytes,
    minus, usable, within_contents,
};
use crate::cursor::{Cursor, clamp_to, min_of};
use crate::utilities::SaturatingSubtract;
use crate::window_size::WindowSize;
use crate::buffer::marks::{is_mark_after, is_mark_before, mark_after, mark_before};
use crate::bytes::{bytes_to_nat, little_endian_value, u64_limit};
use crate::sorting::{keeps_order_of_equal_heads, strictly_increasing, sorted_cursors_by_head, lemma_same_multiset, head_search, lemma_head_search_sorted, search_cursors_by_head, sort_cursors_by_head, sorted_by_head};

verus! {

/// Every selection collapsed onto its head.
pub open spec fn collapsed(cursor: Cursor) -> Cursor {
    Cursor { head: cursor.head, tail: cursor.head }
}

/// Every selection with head and tail swapped.
pub open spec fn flipped(cursor: Cursor) -> Cursor {
    Cursor { head: cursor.tail, tail: cursor.head }
}

/// `value` rounded up to a whole number of lines.
pub open spec fn line_ceiling(value: int) -> int {
    if value % 16 == 0 {
        value
    } else {
        value + 16 - value % 16
    }
}

/// The distance that half-page moves cover: half a screen, rounded up to a
/// whole line.
pub open spec fn half_page(window_size: WindowSize) -> int {
    line_ceiling(window_size.spec_visible_byte_count() / 2)
}

/// `cursor` moved `amount` bytes down (only its head in select mode), then
/// clamped into the contents.
pub open spec fn moved_down(cursor: Cursor, amount: int, mode: Mode, max_index: usize) -> Cursor {
    Cursor {
        head: clamp_to((cursor.head + amount) as usize, 0, max_index),
        tail: clamp_to(
            if mode == Mode::Select {
                cursor.tail
            } else {
                (cursor.tail + amount) as usize
            },
            0,
            max_index,
        ),
    }
}

/// `cursor` moved `amount` bytes up (only its head in select mode), stopping
/// at offset 0.
pub open spec fn moved_up(cursor: Cursor, amount: int, mode: Mode) -> Cursor {
    Cursor {
        head: minus(cursor.head as int, amount) as usize,
        tail: if mode == Mode::Select {
            cursor.tail
        } else {
            minus(cursor.tail as int, amount) as usize
        },
    }
}

/// `value.next_multiple_of(16)`.
fn next_multiple_of_line(value: usize) -> (rounded: usize)
    requires
        value <= 0xFFFF_0000,
    ensures
        rounded == line_ceiling(value as int),
{
    if value % BYTES_PER_LINE == 0 {
        value
    } else {
        value + BYTES_PER_LINE - value % BYTES_PER_LINE
    }
}

/// The selections after making the one after the primary selection (by
/// head) primary: the old primary selection takes its place, or, when it was
/// last, the first becomes primary and the list is sorted again.
pub open spec fn rotation_forward(
    primary: Cursor,
    cursors: Seq<Cursor>,
    new_primary: Cursor,
    new_cursors: Seq<Cursor>,
) -> bool {
    let index = head_search(cursors, primary.head, 0, cursors.len() as int);
    if cursors.len() == 0 {
        new_primary == primary && new_cursors == cursors
    } else if index == cursors.len() {
        &&& new_primary == cursors[0]
        &&& new_cursors.to_multiset() == cursors.update(0, primary).to_multiset()
        &&& sorted_by_head(new_cursors)
        &&& keeps_order_of_equal_heads(cursors.update(0, primary), new_cursors)
    } else {
        new_primary == cursors[index] && new_cursors == cursors.update(index, primary)
    }
}

/// The copy of `cursor` one selection-height further down, if it starts
/// inside the contents; its ends are clamped to the last byte.
pub open spec fn copy_below(cursor: Cursor, length: int, max_index: usize) -> Option<Cursor> {
    let lines_tall = (cursor.upper() - cursor.lower()) / 16;
    let offset = (lines_tall + 1) * 16;
    if cursor.lower() + offset < length {
        Some(
            Cursor {
                head: min_of((cursor.head + offset) as usize, max_index),
                tail: min_of((cursor.tail + offset) as usize, max_index),
            },
        )
    } else {
        None
    }
}

/// The copies below each selection of `cursors` that fit, in order.
pub open spec fn copies_below(cursors: Seq<Cursor>, length: int, max_index: usize) -> Seq<Cursor>
    decreases cursors.len(),
{
    if cursors.len() == 0 {
        Seq::empty()
    } else {
        let rest = copies_below(cursors.drop_last(), length, max_index);
        match copy_below(cursors.last(), length, max_index) {
            Some(copy) => rest.push(copy),
            None => rest,
        }
    }
}

/// The number of bytes a selection covers.
pub open spec fn length_of(cursor: Cursor) -> int {
    cursor.upper() - cursor.lower() + 1
}

/// `cursor` cut into consecutive selections of `size` bytes, each with its
/// head at its upper end.
pub open spec fn pieces(cursor: Cursor, size: int) -> Seq<Cursor> {
    Seq::new(
        (length_of(cursor) / size) as nat,
        |k: int|
            Cursor {
                head: (cursor.lower() + k * size + size - 1) as usize,
                tail: (cursor.lower() + k * size) as usize,
            },
    )
}

/// All pieces of all selections of `cursors`, in order.
pub open spec fn all_pieces(cursors: Seq<Cursor>, size: int) -> Seq<Cursor>
    decreases cursors.len(),
{
    if cursors.len() == 0 {
        Seq::empty()
    } else {
        all_pieces(cursors.drop_last(), size) + pieces(cursors.last(), size)
    }
}

/// Every selection of the list covers a multiple of `size` bytes.
pub open spec fn all_multiples_of(cursors: Seq<Cursor>, size: int) -> bool {
    forall|k: int| 0 <= k < cursors.len() ==> length_of(#[trigger] cursors[k]) % size == 0
}

/// The pieces of selections inside `0..=max` lie inside it too.
pub proof fn lemma_all_pieces_within(cursors: Seq<Cursor>, size: int, max: usize)
    requires
        size >= 1,
        all_within(cursors, max),
        all_multiples_of(cursors, size),
    ensures
        all_within(all_pieces(cursors, size), max),
    decreases cursors.len(),
{
    if cursors.len() > 0 {
        let rest = cursors.drop_last();
        assert(all_within(rest, max) && all_multiples_of(rest, size)) by {
            assert forall|k: int| 0 <= k < rest.len() implies (#[trigger] rest[k]).within(max) && length_of(rest[k]) % size == 0 by {
                assert(rest[k] == cursors[k]);
            }
        }
        lemma_all_pieces_within(rest, size, max);
        let last = cursors.last();
        assert(cursors[cursors.len() - 1] == last);
        let count = length_of(last) / size;
        assert forall|k: int| 0 <= k < count implies #[trigger] pieces(last, size)[k].within(max) by {
            assert(k * size + size <= count * size) by (nonlinear_arith)
                requires
                    k < count,
                    size >= 1,
            ;
            assert(count * size <= length_of(last)) by (nonlinear_arith)
                requires
                    size >= 1,
                    count == length_of(last) / size,
                    length_of(last) >= 0,
            ;
            assert(k * size >= 0) by (nonlinear_arith)
                requires
                    k >= 0,
                    size >= 1,
            ;
        }
        let all = all_pieces(cursors, size);
        assert forall|k: int| 0 <= k < all.len() implies (#[trigger] all[k]).within(max) by {
            if k >= all_pieces(rest, size).len() {
                assert(all[k] == pieces(last, size)[k - all_pieces(rest, size).len()]);
            } else {
                assert(all[k] == all_pieces(rest, size)[k]);
            }
        }
    }
}

/// The first mark after `offset`, or `max + 1` when there is none.
pub open spec fn next_mark(offset: usize, marks: Set<usize>, max: usize) -> int {
    if exists|m: usize| marks.contains(m) && m > offset {
        (choose|m: usize|
            marks.contains(m) && m > offset && forall|n: usize| marks.contains(n) && n > offset ==> m <= n) as int
    } else {
        max + 1
    }
}

/// `cursor` with its head moved to just before the next mark (its tail first
/// moved to its head unless extending).
pub open spec fn tilled_to_mark(cursor: Cursor, extend: bool, marks: Set<usize>, max: usize) -> Cursor {
    Cursor {
        head: (next_mark(cursor.head, marks, max) - 1) as usize,
        tail: if extend {
            cursor.tail
        } else {
            cursor.head
        },
    }
}

/// The first offset after `offset` holding `byte`, if any.
pub open spec fn next_byte(contents: Seq<u8>, offset: int, target: u8) -> Option<int> {
    if exists|j: int| offset < j < contents.len() && contents[j] == target {
        Some(
            choose|j: int|
                offset < j < contents.len() && contents[j] == target && forall|i: int|
                    offset < i < j ==> contents[i] != target,
        )
    } else {
        None
    }
}

/// `cursor` with its head moved to just before the next `byte` (its tail
/// first moved to its head unless extending); unchanged when no such byte
/// follows.
pub open spec fn tilled_to_byte(cursor: Cursor, extend: bool, contents: Seq<u8>, target: u8) -> Cursor {
    match next_byte(contents, cursor.head as int, target) {
        Some(j) => Cursor {
            head: (j - 1) as usize,
            tail: if extend {
                cursor.tail
            } else {
                cursor.head
            },
        },
        None => cursor,
    }
}

/// Every mark lies in `0..=max`.
pub open spec fn marks_within(marks: Set<usize>, max: usize) -> bool {
    forall|m: usize| marks.contains(m) ==> m <= max
}

/// What `mark_after` finds among the sorted marks is the next mark.
pub proof fn lemma_mark_after_is_next_mark(
    found: usize,
    offset: usize,
    sorted_marks: Seq<usize>,
    marks: Set<usize>,
    max: usize,
)
    requires
        is_mark_after(found as int, offset, sorted_marks, max),
        forall|m: usize| sorted_marks.contains(m) <==> marks.contains(m),
    ensures
        found == next_mark(offset, marks, max),
        found >= 1,
        marks_within(marks, max) ==> found <= max + 1,
{
    if exists|i: int| 0 <= i < sorted_marks.len() && sorted_marks[i] > offset {
        assert(marks.contains(found) && found > offset);
        assert forall|n: usize| marks.contains(n) && n > offset implies found <= n by {
            assert(sorted_marks.contains(n));
        }
        let chosen = choose|m: usize|
            marks.contains(m) && m > offset && forall|n: usize| marks.contains(n) && n > offset ==> m <= n;
        assert(chosen == found);
    } else {
        assert forall|m: usize| marks.contains(m) implies m <= offset by {
            assert(sorted_marks.contains(m));
        }
    }
}

/// The bytes under `cursor`.
pub open spec fn selected_bytes_of(contents: Seq<u8>, cursor: Cursor) -> Seq<u8> {
    contents.subrange(cursor.lower() as int, cursor.upper() + 1)
}

/// The number the bytes under `cursor` spell, little-endian.
pub open spec fn selection_value(contents: Seq<u8>, cursor: Cursor) -> nat {
    little_endian_value(selected_bytes_of(contents, cursor))
}

/// The bytes under `cursor` spell an offset into the contents.
pub open spec fn valid_offset(contents: Seq<u8>, cursor: Cursor) -> bool {
    selection_value(contents, cursor) < contents.len()
}

/// Every selection of the list spells an offset into the contents.
pub open spec fn all_valid_offsets(contents: Seq<u8>, cursors: Seq<Cursor>) -> bool {
    forall|k: int| 0 <= k < cursors.len() ==> valid_offset(contents, #[trigger] cursors[k])
}

/// The single byte at the offset that `cursor` spells.
pub open spec fn jumped(contents: Seq<u8>, cursor: Cursor) -> Cursor {
    Cursor::at_spec(selection_value(contents, cursor) as usize)
}

/// The greatest mark at or before `offset`, or 0 when there is none.
pub open spec fn previous_mark(offset: usize, marks: Set<usize>) -> int {
    if exists|m: usize| marks.contains(m) && m <= offset {
        (choose|m: usize|
            marks.contains(m) && m <= offset && forall|n: usize| marks.contains(n) && n <= offset ==> n <= m) as int
    } else {
        0
    }
}

/// The offset that `cursor` spells, counted from the mark at or before its
/// start.
pub open spec fn relative_target(contents: Seq<u8>, cursor: Cursor, marks: Set<usize>) -> int {
    previous_mark(cursor.lower(), marks) + selection_value(contents, cursor)
}

/// The bytes under `cursor` spell an offset, counted from the mark before
/// it, that lies in the contents.
pub open spec fn valid_relative_offset(contents: Seq<u8>, cursor: Cursor, marks: Set<usize>) -> bool {
    relative_target(contents, cursor, marks) < contents.len()
}

pub open spec fn all_valid_relative_offsets(contents: Seq<u8>, cursors: Seq<Cursor>, marks: Set<usize>) -> bool {
    forall|k: int| 0 <= k < cursors.len() ==> valid_relative_offset(contents, #[trigger] cursors[k], marks)
}

/// The single byte at the offset that `cursor` spells from the mark before
/// it.
pub open spec fn jumped_relative(contents: Seq<u8>, cursor: Cursor, marks: Set<usize>) -> Cursor {
    Cursor::at_spec(relative_target(contents, cursor, marks) as usize)
}

/// What `mark_before` finds among the sorted marks is the previous mark.
pub proof fn lemma_mark_before_is_previous_mark(
    found: usize,
    offset: usize,
    sorted_marks: Seq<usize>,
    marks: Set<usize>,
)
    requires
        is_mark_before(found, offset, sorted_marks),
        forall|m: usize| sorted_marks.contains(m) <==> marks.contains(m),
    ensures
        found == previous_mark(offset, marks),
        found <= offset,
{
    if exists|i: int| 0 <= i < sorted_marks.len() && sorted_marks[i] <= offset {
        assert(marks.contains(found) && found <= offset);
        assert forall|n: usize| marks.contains(n) && n <= offset implies n <= found by {
            assert(sorted_marks.contains(n));
            let i = choose|i: int| 0 <= i < sorted_marks.len() && sorted_marks[i] == n;
        }
        let chosen = choose|m: usize|
            marks.contains(m) && m <= offset && forall|n: usize| marks.contains(n) && n <= offset ==> n <= m;
        assert(chosen == found);
    } else {
        assert forall|m: usize| marks.contains(m) implies m > offset by {
            assert(sorted_marks.contains(m));
            let i = choose|i: int| 0 <= i < sorted_marks.len() && sorted_marks[i] == m;
        }
    }
}

impl Buffer {
    /// What `normal_mode` leaves, given the buffer before it.
    #[verifier::opaque]
    pub open spec fn normal_mode_effect(before: Buffer, after: Buffer) -> bool {
        &&& (after == (Buffer { mode: Mode::Normal, ..before }))
    }

    pub fn normal_mode(&mut self)
        ensures
            Self::normal_mode_effect(*old(self), *final(self)),
    {
        proof {
            reveal(Buffer::normal_mode_effect);
        }
        self.mode = Mode::Normal;
    }

    /// What `select_mode` leaves, given the buffer before it.
    #[verifier::opaque]
    pub open spec fn select_mode_effect(before: Buffer, after: Buffer) -> bool {
        &&& (after == (Buffer { mode: Mode::Select, ..before }))
    }

    pub fn select_mode(&mut self)
        ensures
            Self::select_mode_effect(*old(self), *final(self)),
    {
        proof {
            reveal(Buffer::select_mode_effect);
        }
        self.mode = Mode::Select;
    }

    /// What `goto` leaves, given the buffer before it.
    #[verifier::opaque]
    pub open spec fn goto_effect(before: Buffer, after: Buffer) -> bool {
        &&& (after == (Buffer { partial_action: Some(PartialAction::Goto), ..before }))
    }

    pub fn goto(&mut self)
        ensures
            Self::goto_effect(*old(self), *final(self)),
    {
        proof {
            reveal(Buffer::goto_effect);
        }
        self.partial_action = Some(PartialAction::Goto);
    }

    /// What `view` leaves, given the buffer before it.
    #[verifier::opaque]
    pub open spec fn view_effect(before: Buffer, after: Buffer) -> bool {
        &&& (after == (Buffer { partial_action: Some(PartialAction::View), ..before }))
    }

    pub fn view(&mut self)
        ensures
            Self::view_effect(*old(self), *final(self)),
    {
        proof {
            reveal(Buffer::view_effect);
        }
        self.partial_action = Some(PartialAction::View);
    }

    /// What `replace` leaves, given the buffer before it.
    #[verifier::opaque]
    pub open spec fn replace_effect(before: Buffer, after: Buffer) -> bool {
        &&& (before.contents@.len() > 0 ==> after == (Buffer {
            partial_action: Some(PartialAction::Replace),
            ..before
        }))
        &&& (before.contents@.len() == 0 ==> after == before)
    }

    /// Waits for the two hex digits of a replacement byte; not in an empty
    /// buffer.
    pub fn replace(&mut self)
        ensures
            Self::replace_effect(*old(self), *final(self)),
    {
        proof {
            reveal(Buffer::replace_effect);
        }
        if self.contents.len() != 0 {
            self.partial_action = Some(PartialAction::Replace);
        }
    }

    /// What `space` leaves, given the buffer before it.
    #[verifier::opaque]
    pub open spec fn space_effect(before: Buffer, after: Buffer) -> bool {
        &&& (after == (Buffer { partial_action: Some(PartialAction::Space), ..before }))
    }

    pub fn space(&mut self)
        ensures
            Self::space_effect(*old(self), *final(self)),
    {
        proof {
            reveal(Buffer::space_effect);
        }
        self.partial_action = Some(PartialAction::Space);
    }

    /// What `repeat` leaves, given the buffer before it.
    #[verifier::opaque]
    pub open spec fn repeat_effect(before: Buffer, after: Buffer) -> bool {
        &&& (after == (Buffer { partial_action: Some(PartialAction::Repeat), ..before }))
    }

    pub fn repeat(&mut self)
        ensures
            Self::repeat_effect(*old(self), *final(self)),
    {
        proof {
            reveal(Buffer::repeat_effect);
        }
        self.partial_action = Some(PartialAction::Repeat);
    }

    /// What `to` leaves, given the buffer before it.
    #[verifier::opaque]
    pub open spec fn to_effect(before: Buffer, after: Buffer) -> bool {
        &&& (after == (Buffer { partial_action: Some(PartialAction::Till), ..before }))
    }

    pub fn to(&mut self)
        ensures
            Self::to_effect(*old(self), *final(self)),
    {
        proof {
            reveal(Buffer::to_effect);
        }
        self.partial_action = Some(PartialAction::Till);
    }

    /// What `collapse_selection` leaves, given the buffer before it.
    #[verifier::opaque]
    pub open spec fn collapse_selection_effect(before: Buffer, after: Buffer) -> bool {
        &&& (after == (Buffer {
            primary_cursor: collapsed(before.primary_cursor),
            cursors: after.cursors,
            ..before
        }))
        &&& (after.cursors@ == before.cursors@.map_values(|cursor: Cursor| collapsed(cursor)))
    }

    /// Shrinks every selection to its head.
    pub fn collapse_selection(&mut self)
        ensures
            Self::collapse_selection_effect(*old(self), *final(self)),
    {
        proof {
            reveal(Buffer::collapse_selection_effect);
        }
        self.primary_cursor.collapse();
        let ghost before = *self;
        let mut index: usize = 0;
        while index < self.cursors.len()
            invariant
                index <= self.cursors@.len() == before.cursors@.len(),
                *self == (Buffer { cursors: self.cursors, ..before }),
                forall|k: int| 0 <= k < index ==> self.cursors@[k] == collapsed(before.cursors@[k]),
                forall|k: int| index <= k < self.cursors@.len() ==> self.cursors@[k] == before.cursors@[k],
            decreases self.cursors@.len() - index,
        {
            let mut cursor = self.cursors[index];
            cursor.collapse();
            self.cursors.set(index, cursor);
            index = index + 1;
        }
        assert(self.cursors@ =~= before.cursors@.map_values(|cursor: Cursor| collapsed(cursor)));
    }

    /// What `flip_selection` leaves, given the buffer before it.
    #[verifier::opaque]
    pub open spec fn flip_selection_effect(before: Buffer, after: Buffer, window_size: WindowSize) -> bool {
        &&& (after == (Buffer {
            primary_cursor: flipped(before.primary_cursor),
            cursors: after.cursors,
            scroll_position: clamped_to_head(
                before.scroll_position as int,
                before.primary_cursor.tail as int,
                before.max_index() as int,
                window_size,
            ) as usize,
            ..before
        }))
        &&& (after.cursors@ == before.cursors@.map_values(|cursor: Cursor| flipped(cursor)))
        &&& (before.wf(window_size) ==> after.wf(window_size))
        &&& (before.sizes_ok(window_size) ==> after.sizes_ok(window_size))
        &&& (before.scroll_position % 16 == 0 ==> after.scroll_position % 16 == 0)
    }

    /// Swaps head and tail of every selection and keeps the primary head on
    /// screen.
    pub fn flip_selection(&mut self, window_size: WindowSize)
        requires
            usable(window_size),
            old(self).scroll_position <= isize::MAX,
        ensures
            Self::flip_selection_effect(*old(self), *final(self), window_size),
    {
        proof {
            reveal(Buffer::flip_selection_effect);
        }
        self.primary_cursor.flip();
        let ghost before = *self;
        let mut index: usize = 0;
        while index < self.cursors.len()
            invariant
                index <= self.cursors@.len() == before.cursors@.len(),
                *self == (Buffer { cursors: self.cursors, ..before }),
                forall|k: int| 0 <= k < index ==> self.cursors@[k] == flipped(before.cursors@[k]),
                forall|k: int| index <= k < self.cursors@.len() ==> self.cursors@[k] == before.cursors@[k],
            decreases self.cursors@.len() - index,
        {
            let mut cursor = self.cursors[index];
            cursor.flip();
            self.cursors.set(index, cursor);
            index = index + 1;
        }
        assert(self.cursors@ =~= before.cursors@.map_values(|cursor: Cursor| flipped(cursor)));
        self.clamp_screen_to_primary_cursor(window_size);
        proof {
            if old(self).wf(window_size) {
                lemma_clamped_to_head_shows_head(
                    old(self).scroll_position as int,
                    self.primary_cursor.head as int,
                    self.max_index() as int,
                    window_size,
                );
            }
        }
    }

    /// What `keep_primary_selection` leaves, given the buffer before it.
    #[verifier::opaque]
    pub open spec fn keep_primary_selection_effect(before: Buffer, after: Buffer) -> bool {
        &&& (after == (Buffer { cursors: after.cursors, ..before }))
        &&& (after.cursors@.len() == 0)
    }

    /// Drops every selection but the primary one.
    pub fn keep_primary_selection(&mut self)
        ensures
            Self::keep_primary_selection_effect(*old(self), *final(self)),
    {
        proof {
            reveal(Buffer::keep_primary_selection_effect);
        }
        self.cursors.clear();
    }

    /// What `scroll_down` leaves, given the buffer before it.
    #[verifier::opaque]
    pub open spec fn scroll_down_effect(before: Buffer, after: Buffer, window_size: WindowSize) -> bool {
        &&& (after.scroll_position == clamped_to_contents(
            before.scroll_position + 16,
            before.max_index() as int,
            window_size,
        ))
        &&& ((after.primary_cursor, after.cursors@) == merged(
            cursor_on_screen(
                before.primary_cursor,
                before.mode,
                after.scroll_position as int,
                window_size,
            ),
            before.cursors@,
            0,
        ))
        &&& (same_except_view(&before, &after))
        &&& (before.sizes_ok(window_size) ==> after.sizes_ok(window_size))
        &&& (before.scroll_position % 16 == 0 ==> after.scroll_position % 16 == 0)
    }

    /// Scrolls one line down, keeping the primary selection on screen.
    pub fn scroll_down(&mut self, window_size: WindowSize)
        requires
            usable(window_size),
            old(self).scroll_position <= isize::MAX,
            old(self).contents@.len() <= isize::MAX,
        ensures
            Self::scroll_down_effect(*old(self), *final(self), window_size),
    {
        proof {
            reveal(Buffer::scroll_down_effect);
        }
        self.scroll_position = self.scroll_position + BYTES_PER_LINE;
        self.clamp_screen_to_contents(window_size);
        proof {
            lemma_clamped_within_contents(
                old(self).scroll_position + 16,
                self.max_index() as int,
                window_size,
            );
            lemma_line_floor(self.max_index() as int);
        }
        self.clamp_primary_cursor_to_screen(window_size);
        proof {
            if old(self).sizes_ok(window_size) {
                lemma_on_screen_within(
                    old(self).primary_cursor,
                    old(self).mode,
                    self.scroll_position as int,
                    self.max_index(),
                    window_size,
                );
            }
        }
        self.combine_cursors_if_overlapping();
    }

    /// What `scroll_up` leaves, given the buffer before it.
    #[verifier::opaque]
    pub open spec fn scroll_up_effect(before: Buffer, after: Buffer, window_size: WindowSize) -> bool {
        &&& (after.scroll_position == minus(before.scroll_position as int, 16))
        &&& ((after.primary_cursor, after.cursors@) == merged(
            cursor_on_screen(
                before.primary_cursor,
                before.mode,
                after.scroll_position as int,
                window_size,
            ),
            before.cursors@,
            0,
        ))
        &&& (same_except_view(&before, &after))
        &&& (before.sizes_ok(window_size) && within_contents(
            before.scroll_position as int,
            before.max_index() as int,
            window_size,
        ) ==> after.sizes_ok(window_size))
        &&& (before.scroll_position % 16 == 0 ==> after.scroll_position % 16 == 0)
    }

    /// Scrolls one line up, keeping the primary selection on screen.
    pub fn scroll_up(&mut self, window_size: WindowSize)
        requires
            usable(window_size),
            old(self).scroll_position <= isize::MAX,
        ensures
            Self::scroll_up_effect(*old(self), *final(self), window_size),
    {
        proof {
            reveal(Buffer::scroll_up_effect);
        }
        self.scroll_position.saturating_subtract(BYTES_PER_LINE);
        self.clamp_primary_cursor_to_screen(window_size);
        proof {
            if old(self).sizes_ok(window_size) && within_contents(
                old(self).scroll_position as int,
                old(self).max_index() as int,
                window_size,
            ) {
                lemma_on_screen_within(
                    old(self).primary_cursor,
                    old(self).mode,
                    self.scroll_position as int,
                    self.max_index(),
                    window_size,
                );
            }
        }
        self.combine_cursors_if_overlapping();
    }

    /// What `page_down` leaves, given the buffer before it.
    #[verifier::opaque]
    pub open spec fn page_down_effect(before: Buffer, after: Buffer, window_size: WindowSize) -> bool {
        &&& (after.scroll_position == clamped_to_contents(
            before.scroll_position + window_size.spec_visible_byte_count(),
            before.max_index() as int,
            window_size,
        ))
        &&& ((after.primary_cursor, after.cursors@) == merged(
            cursor_on_screen(
                before.primary_cursor,
                before.mode,
                after.scroll_position as int,
                window_size,
            ),
            before.cursors@,
            0,
        ))
        &&& (same_except_view(&before, &after))
        &&& (before.sizes_ok(window_size) ==> after.sizes_ok(window_size))
        &&& (before.scroll_position % 16 == 0 ==> after.scroll_position % 16 == 0)
    }

    /// Scrolls one screen down, keeping the primary selection on screen.
    pub fn page_down(&mut self, window_size: WindowSize)
        requires
            usable(window_size),
            old(self).scroll_position <= isize::MAX,
            old(self).contents@.len() <= isize::MAX,
        ensures
            Self::page_down_effect(*old(self), *final(self), window_size),
    {
        proof {
            reveal(Buffer::page_down_effect);
        }
        proof {
            lemma_visible_bytes(window_size);
        }
        self.scroll_position = self.scroll_position + window_size.visible_byte_count();
        self.clamp_screen_to_contents(window_size);
        proof {
            lemma_clamped_within_contents(
                old(self).scroll_position + window_size.spec_visible_byte_count(),
                self.max_index() as int,
                window_size,
            );
            lemma_line_floor(self.max_index() as int);
        }
        self.clamp_primary_cursor_to_screen(window_size);
        proof {
            if old(self).sizes_ok(window_size) {
                lemma_on_screen_within(
                    old(self).primary_cursor,
                    old(self).mode,
                    self.scroll_position as int,
                    self.max_index(),
                    window_size,
                );
            }
        }
        self.combine_cursors_if_overlapping();
    }

    /// What `page_up` leaves, given the buffer before it.
    #[verifier::opaque]
    pub open spec fn page_up_effect(before: Buffer, after: Buffer, window_size: WindowSize) -> bool {
        &&& (after.scroll_position == clamped_to_contents(
            minus(before.scroll_position as int, window_size.spec_visible_byte_count()),
            before.max_index() as int,
            window_size,
        ))
        &&& ((after.primary_cursor, after.cursors@) == merged(
            cursor_on_screen(
                before.primary_cursor,
                before.mode,
                after.scroll_position as int,
                window_size,
            ),
            before.cursors@,
            0,
        ))
        &&& (same_except_view(&before, &after))
        &&& (before.sizes_ok(window_size) ==> after.sizes_ok(window_size))
        &&& (before.scroll_position % 16 == 0 ==> after.scroll_position % 16 == 0)
    }

    /// Scrolls one screen up, keeping the primary selection on screen.
    pub fn page_up(&mut self, window_size: WindowSize)
        requires
            usable(window_size),
            old(self).scroll_position <= isize::MAX,
        ensures
            Self::page_up_effect(*old(self), *final(self), window_size),
    {
        proof {
            reveal(Buffer::page_up_effect);
        }
        proof {
            lemma_visible_bytes(window_size);
        }
        self.scroll_position.saturating_subtract(window_size.visible_byte_count());
        self.clamp_screen_to_contents(window_size);
        proof {
            lemma_clamped_within_contents(
                minus(old(self).scroll_position as int, window_size.spec_visible_byte_count()),
                self.max_index() as int,
                window_size,
            );
            lemma_line_floor(self.max_index() as int);
        }
        self.clamp_primary_cursor_to_screen(window_size);
        proof {
            if old(self).sizes_ok(window_size) {
                lemma_on_screen_within(
                    old(self).primary_cursor,
                    old(self).mode,
                    self.scroll_position as int,
                    self.max_index(),
                    window_size,
                );
            }
        }
        self.combine_cursors_if_overlapping();
    }

    /// Moves every non-primary selection `amount` bytes down (only heads in
    /// select mode), clamped into `0..=max`.
    fn move_cursors_down(&mut self, scroll_amount: usize, max_contents_index: usize)
        requires
            scroll_amount <= 0xFFFF * 16,
            max_contents_index <= isize::MAX,
            all_within(old(self).cursors@, max_contents_index),
        ensures
            *final(self) == (Buffer { cursors: final(self).cursors, ..*old(self) }),
            final(self).cursors@ == old(self).cursors@.map_values(
                |cursor: Cursor| moved_down(cursor, scroll_amount as int, old(self).mode, max_contents_index),
            ),
            all_within(final(self).cursors@, max_contents_index),
    {
        let ghost amount = scroll_amount as int;
        let ghost before = *self;
        let mode = self.mode;
        let mut index: usize = 0;
        while index < self.cursors.len()
            invariant
                index <= self.cursors@.len() == before.cursors@.len(),
                *self == (Buffer { cursors: self.cursors, ..before }),
                mode == before.mode,
                max_contents_index <= isize::MAX,
                all_within(before.cursors@, max_contents_index),
                scroll_amount == amount,
                amount <= 0xFFFF * 16,
                forall|k: int|
                    0 <= k < index ==> self.cursors@[k] == moved_down(
                        before.cursors@[k],
                        amount,
                        mode,
                        max_contents_index,
                    ),
                forall|k: int| index <= k < self.cursors@.len() ==> self.cursors@[k] == before.cursors@[k],
            decreases self.cursors@.len() - index,
        {
            let mut cursor = self.cursors[index];
            assert(before.cursors@[index as int].within(max_contents_index));
            cursor.head = cursor.head + scroll_amount;
            if mode != Mode::Select {
                cursor.tail = cursor.tail + scroll_amount;
            }
            cursor.clamp(0, max_contents_index);
            self.cursors.set(index, cursor);
            index = index + 1;
        }
        assert(self.cursors@ =~= before.cursors@.map_values(
            |cursor: Cursor| moved_down(cursor, amount, mode, max_contents_index),
        ));
        assert(all_within(self.cursors@, max_contents_index));
    }

    /// What `page_cursor_half_down` leaves, given the buffer before it.
    #[verifier::opaque]
    pub open spec fn page_cursor_half_down_effect(before: Buffer, after: Buffer, window_size: WindowSize) -> bool {
        &&& ({
            let amount = half_page(window_size);
            let max = before.max_index();
            let scrolled = clamped_to_contents(
                before.scroll_position + amount,
                max as int,
                window_size,
            );
            let primary = moved_down(before.primary_cursor, amount, before.mode, max);
            &&& after.scroll_position == clamped_to_head(
                scrolled,
                primary.head as int,
                max as int,
                window_size,
            )
            &&& (after.primary_cursor, after.cursors@) == merged(
                primary,
                before.cursors@.map_values(
                    |cursor: Cursor| moved_down(cursor, amount, before.mode, max),
                ),
                0,
            )
        })
        &&& (same_except_view(&before, &after))
        &&& (after.sizes_ok(window_size))
        &&& (before.scroll_position % 16 == 0 ==> after.scroll_position % 16 == 0)
    }

    /// Scrolls half a screen down and moves every selection along.
    #[verifier::rlimit(50)]
    #[verifier::spinoff_prover]
    pub fn page_cursor_half_down(&mut self, window_size: WindowSize)
        requires
            old(self).sizes_ok(window_size),
        ensures
            Self::page_cursor_half_down_effect(*old(self), *final(self), window_size),
    {
        proof {
            reveal(Buffer::page_cursor_half_down_effect);
        }
        proof {
            lemma_visible_bytes(window_size);
        }
        let scroll_amount = next_multiple_of_line(window_size.visible_byte_count() / 2);
        let ghost amount = scroll_amount as int;
        let max_contents_index = self.max_contents_index();
        self.scroll_position = self.scroll_position + scroll_amount;
        self.clamp_screen_to_contents(window_size);
        proof {
            lemma_clamped_within_contents(
                old(self).scroll_position + amount,
                max_contents_index as int,
                window_size,
            );
            lemma_line_floor(max_contents_index as int);
        }
        self.primary_cursor.head = self.primary_cursor.head + scroll_amount;
        if self.mode != Mode::Select {
            self.primary_cursor.tail = self.primary_cursor.tail + scroll_amount;
        }
        self.primary_cursor.clamp(0, max_contents_index);
        let ghost scrolled = self.scroll_position;
        self.clamp_screen_to_primary_cursor(window_size);
        proof {
            lemma_clamped_to_head_shows_head(
                scrolled as int,
                self.primary_cursor.head as int,
                max_contents_index as int,
                window_size,
            );
        }
        self.move_cursors_down(scroll_amount, max_contents_index);
        self.combine_cursors_if_overlapping();
    }

    /// What `page_cursor_half_up` leaves, given the buffer before it.
    #[verifier::opaque]
    pub open spec fn page_cursor_half_up_effect(before: Buffer, after: Buffer, window_size: WindowSize) -> bool {
        &&& (after.scroll_position == minus(
            before.scroll_position as int,
            half_page(window_size),
        ))
        &&& ((after.primary_cursor, after.cursors@) == merged(
            moved_up(before.primary_cursor, half_page(window_size), before.mode),
            before.cursors@.map_values(
                |cursor: Cursor| moved_up(cursor, half_page(window_size), before.mode),
            ),
            0,
        ))
        &&& (same_except_view(&before, &after))
        &&& (before.sizes_ok(window_size) ==> after.sizes_ok(window_size))
        &&& (before.scroll_position % 16 == 0 ==> after.scroll_position % 16 == 0)
    }

    /// Scrolls half a screen up and moves every selection along, stopping at
    /// the start.
    pub fn page_cursor_half_up(&mut self, window_size: WindowSize)
        requires
            usable(window_size),
        ensures
            Self::page_cursor_half_up_effect(*old(self), *final(self), window_size),
    {
        proof {
            reveal(Buffer::page_cursor_half_up_effect);
        }
        proof {
            lemma_visible_bytes(window_size);
        }
        let scroll_amount = next_multiple_of_line(window_size.visible_byte_count() / 2);
        let ghost amount = scroll_amount as int;
        self.scroll_position.saturating_subtract(scroll_amount);
        self.primary_cursor.head.saturating_subtract(scroll_amount);
        if self.mode != Mode::Select {
            self.primary_cursor.tail.saturating_subtract(scroll_amount);
        }
        let ghost before = *self;
        let mode = self.mode;
        let mut index: usize = 0;
        while index < self.cursors.len()
            invariant
                index <= self.cursors@.len() == before.cursors@.len(),
                *self == (Buffer { cursors: self.cursors, ..before }),
                mode == before.mode,
                scroll_amount == amount,
                forall|k: int|
                    0 <= k < index ==> self.cursors@[k] == moved_up(before.cursors@[k], amount, mode),
                forall|k: int| index <= k < self.cursors@.len() ==> self.cursors@[k] == before.cursors@[k],
            decreases self.cursors@.len() - index,
        {
            let mut cursor = self.cursors[index];
            cursor.head.saturating_subtract(scroll_amount);
            if mode != Mode::Select {
                cursor.tail.saturating_subtract(scroll_amount);
            }
            self.cursors.set(index, cursor);
            index = index + 1;
        }
        assert(self.cursors@ =~= before.cursors@.map_values(
            |cursor: Cursor| moved_up(cursor, amount, mode),
        ));
        proof {
            if old(self).sizes_ok(window_size) {
                assert(all_within(self.cursors@, self.max_index()));
            }
        }
        self.combine_cursors_if_overlapping();
    }

    /// What `rotate_selections_forward` leaves, given the buffer before it.
    #[verifier::opaque]
    pub open spec fn rotate_selections_forward_effect(before: Buffer, after: Buffer, window_size: WindowSize) -> bool {
        &&& (rotation_forward(
            before.primary_cursor,
            before.cursors@,
            after.primary_cursor,
            after.cursors@,
        ))
        &&& (after == (Buffer {
            primary_cursor: after.primary_cursor,
            cursors: after.cursors,
            scroll_position: if before.cursors@.len() == 0 {
                before.scroll_position
            } else {
                clamped_to_head(
                    before.scroll_position as int,
                    after.primary_cursor.head as int,
                    before.max_index() as int,
                    window_size,
                ) as usize
            },
            ..before
        }))
        &&& (before.wf(window_size) ==> after.wf(window_size))
        &&& (before.sizes_ok(window_size) ==> after.sizes_ok(window_size))
        &&& (sorted_by_head(before.cursors@) ==> sorted_by_head(after.cursors@))
        &&& (before.scroll_position % 16 == 0 ==> after.scroll_position % 16 == 0)
    }

    /// Makes the selection after the primary one (by head) primary, wrapping
    /// around to the first.
    pub fn rotate_selections_forward(&mut self, window_size: WindowSize)
        requires
            usable(window_size),
            old(self).scroll_position <= isize::MAX,
        ensures
            Self::rotate_selections_forward_effect(*old(self), *final(self), window_size),
    {
        proof {
            reveal(Buffer::rotate_selections_forward_effect);
        }
        if self.cursors.len() == 0 {
            return;
        }
        let next_cursor_index = search_cursors_by_head(self.cursors.as_slice(), self.primary_cursor.head);
        let primary = self.primary_cursor;
        if next_cursor_index == self.cursors.len() {
            self.primary_cursor = self.cursors[0];
            self.cursors.set(0, primary);
            sort_cursors_by_head(&mut self.cursors);
        } else {
            self.primary_cursor = self.cursors[next_cursor_index];
            self.cursors.set(next_cursor_index, primary);
            proof {
                if sorted_by_head(old(self).cursors@) {
                    lemma_head_search_sorted(old(self).cursors@, primary.head, 0, old(self).cursors@.len() as int);
                }
            }
        }
        proof {
            if old(self).sizes_ok(window_size) {
                assert(old(self).cursors@.contains(self.primary_cursor));
                lemma_rotation_keeps_bounds(old(self).cursors@, self.cursors@, primary, self.primary_cursor, self.max_index());
                lemma_clamped_to_head_shows_head(
                    old(self).scroll_position as int,
                    self.primary_cursor.head as int,
                    self.max_index() as int,
                    window_size,
                );
            }
        }
        self.clamp_screen_to_primary_cursor(window_size);
    }

    /// What `rotate_selections_backward` leaves, given the buffer before it.
    #[verifier::opaque]
    pub open spec fn rotate_selections_backward_effect(before: Buffer, after: Buffer, window_size: WindowSize) -> bool {
        &&& ({
            let primary = before.primary_cursor;
            let cursors = before.cursors@;
            let index = head_search(cursors, primary.head, 0, cursors.len() as int);
            if cursors.len() == 0 {
                after == before
            } else {
                &&& after == (Buffer {
                    primary_cursor: after.primary_cursor,
                    cursors: after.cursors,
                    scroll_position: after.scroll_position,
                    ..before
                })
                &&& after.scroll_position == clamped_to_head(
                    before.scroll_position as int,
                    after.primary_cursor.head as int,
                    before.max_index() as int,
                    window_size,
                )
                &&& if index == 0 {
                    &&& after.primary_cursor == cursors.last()
                    &&& after.cursors@.to_multiset() == cursors.update(
                        cursors.len() - 1,
                        primary,
                    ).to_multiset()
                    &&& sorted_by_head(after.cursors@)
                    &&& keeps_order_of_equal_heads(cursors.update(cursors.len() - 1, primary), after.cursors@)
                } else {
                    &&& after.primary_cursor == cursors[index - 1]
                    &&& after.cursors@ == cursors.update(index - 1, primary)
                }
            }
        })
        &&& (before.wf(window_size) ==> after.wf(window_size))
        &&& (sorted_by_head(before.cursors@) ==> sorted_by_head(after.cursors@))
        &&& (before.sizes_ok(window_size) ==> after.sizes_ok(window_size))
        &&& (before.scroll_position % 16 == 0 ==> after.scroll_position % 16 == 0)
    }

    /// Makes the selection before the primary one (by head) primary,
    /// wrapping around to the last.
    pub fn rotate_selections_backward(&mut self, window_size: WindowSize)
        requires
            usable(window_size),
            old(self).scroll_position <= isize::MAX,
        ensures
            Self::rotate_selections_backward_effect(*old(self), *final(self), window_size),
    {
        proof {
            reveal(Buffer::rotate_selections_backward_effect);
        }
        if self.cursors.len() == 0 {
            return;
        }
        let next_cursor_index = search_cursors_by_head(self.cursors.as_slice(), self.primary_cursor.head);
        let primary = self.primary_cursor;
        if next_cursor_index == 0 {
            let cursor_count = self.cursors.len();
            self.primary_cursor = self.cursors[cursor_count - 1];
            self.cursors.set(cursor_count - 1, primary);
            sort_cursors_by_head(&mut self.cursors);
        } else {
            self.primary_cursor = self.cursors[next_cursor_index - 1];
            self.cursors.set(next_cursor_index - 1, primary);
            proof {
                if sorted_by_head(old(self).cursors@) {
                    lemma_head_search_sorted(old(self).cursors@, primary.head, 0, old(self).cursors@.len() as int);
                }
            }
        }
        proof {
            if old(self).sizes_ok(window_size) {
                assert(old(self).cursors@.contains(self.primary_cursor));
                lemma_rotation_keeps_bounds(old(self).cursors@, self.cursors@, primary, self.primary_cursor, self.max_index());
                lemma_clamped_to_head_shows_head(
                    old(self).scroll_position as int,
                    self.primary_cursor.head as int,
                    self.max_index() as int,
                    window_size,
                );
            }
        }
        self.clamp_screen_to_primary_cursor(window_size);
    }

    /// What `remove_primary_selection` leaves, given the buffer before it.
    #[verifier::opaque]
    pub open spec fn remove_primary_selection_effect(before: Buffer, after: Buffer) -> bool {
        &&& ({
            let primary = before.primary_cursor;
            let cursors = before.cursors@;
            let index = head_search(cursors, primary.head, 0, cursors.len() as int);
            if cursors.len() == 0 {
                after == before
            } else {
                let taken = if index == cursors.len() { 0 } else { index };
                &&& after == (Buffer {
                    primary_cursor: cursors[taken],
                    cursors: after.cursors,
                    ..before
                })
                &&& after.cursors@ == cursors.remove(taken)
            }
        })
        &&& (before.cursors_in_bounds() ==> after.cursors_in_bounds())
        &&& (sorted_by_head(before.cursors@) ==> sorted_by_head(after.cursors@))
    }

    /// Drops the primary selection; the one after it (by head, wrapping
    /// around) becomes primary.
    pub fn remove_primary_selection(&mut self)
        ensures
            Self::remove_primary_selection_effect(*old(self), *final(self)),
    {
        proof {
            reveal(Buffer::remove_primary_selection_effect);
        }
        if self.cursors.len() == 0 {
            return;
        }
        let next_cursor_index = search_cursors_by_head(self.cursors.as_slice(), self.primary_cursor.head);
        if next_cursor_index == self.cursors.len() {
            self.primary_cursor = self.cursors.remove(0);
        } else {
            self.primary_cursor = self.cursors.remove(next_cursor_index);
        }
        proof {
            let cursors = old(self).cursors@;
            let index = head_search(cursors, old(self).primary_cursor.head, 0, cursors.len() as int);
            let taken = if index == cursors.len() { 0 } else { index };
            assert forall|k: int| 0 <= k < self.cursors@.len() implies self.cursors@[k] == cursors[if k < taken { k } else { k + 1 }] by {}
        }
    }

    /// The copy below `cursor`, see `copy_below`.
    fn copy_on_next_line(&self, cursor: Cursor) -> (copy: Option<Cursor>)
        requires
            self.contents@.len() <= isize::MAX,
            cursor.within(self.max_index()),
        ensures
            copy == copy_below(cursor, self.contents@.len() as int, self.max_index()),
    {
        let number_of_lines_tall = (cursor.upper_bound() - cursor.lower_bound()) / BYTES_PER_LINE;
        let offset_to_add = (number_of_lines_tall + 1) * BYTES_PER_LINE;
        if cursor.lower_bound() + offset_to_add < self.contents.len() {
            let max_contents_index = self.max_contents_index();
            let head = cursor.head + offset_to_add;
            let tail = cursor.tail + offset_to_add;
            Some(
                Cursor {
                    head: if head <= max_contents_index { head } else { max_contents_index },
                    tail: if tail <= max_contents_index { tail } else { max_contents_index },
                },
            )
        } else {
            None
        }
    }

    /// What `copy_selection_on_next_line` leaves, given the buffer before it.
    #[verifier::opaque]
    pub open spec fn copy_selection_on_next_line_effect(before: Buffer, after: Buffer, window_size: WindowSize) -> bool {
        &&& (exists|extended: Seq<Cursor>, merged_primary: Cursor, merged_cursors: Seq<Cursor>|
            {
                &&& extended.to_multiset() == (before.cursors@ + copies_below(
                    seq![before.primary_cursor] + before.cursors@,
                    before.contents@.len() as int,
                    before.max_index(),
                )).to_multiset()
                &&& sorted_by_head(extended)
                &&& keeps_order_of_equal_heads(
                    before.cursors@ + copies_below(
                        seq![before.primary_cursor] + before.cursors@,
                        before.contents@.len() as int,
                        before.max_index(),
                    ),
                    extended,
                )
                &&& (merged_primary, merged_cursors) == merged(before.primary_cursor, extended, 0)
                &&& rotation_forward(
                    merged_primary,
                    merged_cursors,
                    after.primary_cursor,
                    after.cursors@,
                )
                &&& after.scroll_position == if merged_cursors.len() == 0 {
                    before.scroll_position
                } else {
                    clamped_to_head(
                        before.scroll_position as int,
                        after.primary_cursor.head as int,
                        before.max_index() as int,
                        window_size,
                    ) as usize
                }
            })
        &&& (same_except_view(&before, &after))
        &&& (after.sizes_ok(window_size))
        &&& (before.scroll_position % 16 == 0 ==> after.scroll_position % 16 == 0)
    }

    /// Adds, below every selection, a copy of it one selection-height
    /// further down (where it fits), merges overlapping selections and makes
    /// the next selection primary.
    pub fn copy_selection_on_next_line(&mut self, window_size: WindowSize)
        requires
            old(self).sizes_ok(window_size),
        ensures
            Self::copy_selection_on_next_line_effect(*old(self), *final(self), window_size),
    {
        proof {
            reveal(Buffer::copy_selection_on_next_line_effect);
            reveal(Buffer::rotate_selections_forward_effect);
        }
        let ghost max = self.max_index();
        let ghost length = self.contents@.len() as int;
        let ghost all = seq![self.primary_cursor] + self.cursors@;
        let mut new_cursors: Vec<Cursor> = Vec::new();
        if let Some(copy) = self.copy_on_next_line(self.primary_cursor) {
            new_cursors.push(copy);
        }
        assert(new_cursors@ == copies_below(all.take(1), length, max)) by {
            assert(all.take(1).drop_last() =~= Seq::<Cursor>::empty());
            assert(all.take(1).last() == old(self).primary_cursor);
            assert(copies_below(Seq::<Cursor>::empty(), length, max) =~= Seq::<Cursor>::empty());
            assert(new_cursors@ =~= copies_below(all.take(1), length, max));
        }
        let mut index: usize = 0;
        while index < self.cursors.len()
            invariant
                index <= self.cursors@.len(),
                *self == *old(self),
                all == seq![self.primary_cursor] + self.cursors@,
                max == self.max_index(),
                length == self.contents@.len(),
                self.sizes_ok(window_size),
                new_cursors@ == copies_below(all.take(index + 1), length, max),
                all_within(new_cursors@, max),
            decreases self.cursors@.len() - index,
        {
            let cursor = self.cursors[index];
            assert(all.take(index + 2).drop_last() =~= all.take(index + 1));
            assert(all.take(index + 2).last() == cursor);
            if let Some(copy) = self.copy_on_next_line(cursor) {
                new_cursors.push(copy);
            }
            index = index + 1;
        }
        assert(all.take(index + 1) =~= all);
        let ghost copies = new_cursors@;
        self.cursors.append(&mut new_cursors);
        assert(all_within(self.cursors@, max));
        let ghost appended = self.cursors@;
        sort_cursors_by_head(&mut self.cursors);
        proof {
            lemma_same_multiset(appended, self.cursors@);
            assert forall|k: int| 0 <= k < self.cursors@.len() implies (#[trigger] self.cursors@[k]).within(max) by {
                assert(self.cursors@.contains(self.cursors@[k]));
                let j = choose|j: int| 0 <= j < appended.len() && appended[j] == self.cursors@[k];
                assert(appended[j].within(max));
            }
        }
        let ghost extended = self.cursors@;
        self.combine_cursors_if_overlapping();
        let ghost merged_primary = self.primary_cursor;
        let ghost merged_cursors = self.cursors@;
        self.rotate_selections_forward(window_size);
        assert(merged(old(self).primary_cursor, extended, 0) == (merged_primary, merged_cursors));
    }

    /// Appends the pieces of `cursor`, see `pieces`.
    fn push_pieces(pieces_so_far: &mut Vec<Cursor>, cursor: Cursor, size: usize)
        requires
            size >= 1,
            cursor.upper() < usize::MAX,
            length_of(cursor) % (size as int) == 0,
        ensures
            final(pieces_so_far)@ == old(pieces_so_far)@ + pieces(cursor, size as int),
    {
        let lower = cursor.lower_bound();
        let upper = cursor.upper_bound();
        let count = (upper - lower + 1) / size;
        proof {
            assert(count * size == upper - lower + 1) by (nonlinear_arith)
                requires
                    (upper - lower + 1) % (size as int) == 0,
                    size >= 1,
                    count == (upper - lower + 1) / (size as int),
            ;
        }
        let mut tail: usize = lower;
        let mut index: usize = 0;
        while index < count
            invariant
                size >= 1,
                lower == cursor.lower(),
                upper == cursor.upper(),
                upper < usize::MAX,
                count * size == upper - lower + 1,
                count == length_of(cursor) / (size as int),
                index <= count,
                tail == lower + index * size,
                pieces_so_far@ == old(pieces_so_far)@ + pieces(cursor, size as int).take(index as int),
            decreases count - index,
        {
            proof {
                assert(tail + size <= upper + 1) by (nonlinear_arith)
                    requires
                        index < count,
                        tail == lower + index * size,
                        count * size == upper - lower + 1,
                ;
            }
            pieces_so_far.push(Cursor { head: tail + size - 1, tail });
            proof {
                assert(pieces(cursor, size as int).take(index + 1) =~= pieces(cursor, size as int).take(
                    index as int,
                ).push(Cursor { head: (tail + size - 1) as usize, tail }));
            }
            tail = tail + size;
            index = index + 1;
            proof {
                assert(tail == lower + index * size) by (nonlinear_arith)
                    requires
                        tail == lower + (index - 1) * size + size,
                ;
            }
        }
        assert(pieces(cursor, size as int).take(count as int) =~= pieces(cursor, size as int));
    }

    /// What `split_selections_into_size` leaves, given the buffer before it.
    #[verifier::opaque]
    pub open spec fn split_selections_into_size_effect(before: Buffer, after: Buffer, size: usize, window_size: WindowSize) -> bool {
        &&& ({
            let all = seq![before.primary_cursor] + before.cursors@;
            let split = all_pieces(all, size as int);
            if !all_multiples_of(all, size as int) {
                after == (Buffer { alert_message: Some(Alert::NotAllMultipleOf(size)), ..before })
            } else {
                &&& after == (Buffer {
                    primary_cursor: split[0],
                    cursors: after.cursors,
                    scroll_position: clamped_to_head(
                        before.scroll_position as int,
                        split[0].head as int,
                        before.max_index() as int,
                        window_size,
                    ) as usize,
                    ..before
                })
                &&& after.cursors@.to_multiset() == split.drop_first().to_multiset()
                &&& sorted_by_head(after.cursors@)
                &&& keeps_order_of_equal_heads(split.drop_first(), after.cursors@)
            }
        })
        &&& (after.sizes_ok(window_size))
        &&& (before.wf(window_size) ==> after.wf(window_size))
        &&& (before.scroll_position % 16 == 0 ==> after.scroll_position % 16 == 0)
    }

    /// Cuts every selection into selections of `size` bytes. When a
    /// selection's length is not a multiple of `size`, nothing changes but
    /// the alert.
    pub fn split_selections_into_size(&mut self, size: usize, window_size: WindowSize)
        requires
            size >= 1,
            old(self).sizes_ok(window_size),
        ensures
            Self::split_selections_into_size_effect(*old(self), *final(self), size, window_size),
    {
        proof {
            reveal(Buffer::split_selections_into_size_effect);
        }
        let ghost all = seq![self.primary_cursor] + self.cursors@;
        let ghost max = self.max_index();
        if self.primary_cursor.len() % size != 0 {
            assert(all[0] == self.primary_cursor);
            self.alert_message = Some(Alert::NotAllMultipleOf(size));
            return;
        }
        let mut index: usize = 0;
        while index < self.cursors.len()
            invariant
                *self == *old(self),
                all == seq![self.primary_cursor] + self.cursors@,
                size >= 1,
                index <= self.cursors@.len(),
                self.sizes_ok(window_size),
                all_multiples_of(all.take(index + 1), size as int),
            decreases self.cursors@.len() - index,
        {
            assert(self.cursors@[index as int].within(self.max_index()));
            if self.cursors[index].len() % size != 0 {
                assert(all[index + 1] == self.cursors@[index as int]);
                self.alert_message = Some(Alert::NotAllMultipleOf(size));
                proof {
                    reveal(Buffer::split_selections_into_size_effect);
                }
                return;
            }
            assert forall|k: int| 0 <= k < index + 2 implies length_of(#[trigger] all.take(index + 2)[k])
                % (size as int) == 0 by {
                if k < index + 1 {
                    assert(all.take(index + 2)[k] == all.take(index + 1)[k]);
                }
            }
            index = index + 1;
        }
        assert(all.take(index + 1) =~= all);
        let mut split: Vec<Cursor> = Vec::new();
        Self::push_pieces(&mut split, self.primary_cursor, size);
        assert(all_pieces(all.take(1), size as int) =~= pieces(self.primary_cursor, size as int)) by {
            assert(all.take(1).drop_last() =~= Seq::<Cursor>::empty());
            assert(all.take(1).last() == self.primary_cursor);
            assert(all_pieces(Seq::<Cursor>::empty(), size as int) =~= Seq::<Cursor>::empty());
        }
        let mut index: usize = 0;
        while index < self.cursors.len()
            invariant
                *self == *old(self),
                all == seq![self.primary_cursor] + self.cursors@,
                size >= 1,
                index <= self.cursors@.len(),
                self.sizes_ok(window_size),
                all_multiples_of(all, size as int),
                split@ == all_pieces(all.take(index + 1), size as int),
            decreases self.cursors@.len() - index,
        {
            assert(self.cursors@[index as int].within(self.max_index()));
            assert(all[index + 1] == self.cursors@[index as int]);
            Self::push_pieces(&mut split, self.cursors[index], size);
            assert(all.take(index + 2).drop_last() =~= all.take(index + 1));
            index = index + 1;
        }
        assert(all.take(index + 1) =~= all);
        proof {
            lemma_all_pieces_within(all, size as int, max);
            let count = length_of(all[0]) / (size as int);
            assert(count >= 1) by (nonlinear_arith)
                requires
                    length_of(all[0]) % (size as int) == 0,
                    length_of(all[0]) >= 1,
                    size >= 1,
                    count == length_of(all[0]) / (size as int),
            ;
            lemma_first_piece(all, size as int);
        }
        let ghost pieces_all = split@;
        let first = split.remove(0);
        assert(split@ =~= pieces_all.drop_first());
        self.primary_cursor = first;
        self.cursors = sorted_cursors_by_head(split);
        proof {
            lemma_same_multiset(pieces_all.drop_first(), self.cursors@);
            assert forall|k: int| 0 <= k < self.cursors@.len() implies (#[trigger] self.cursors@[k]).within(max) by {
                assert(self.cursors@.contains(self.cursors@[k]));
                let j = choose|j: int| 0 <= j < pieces_all.drop_first().len() && pieces_all.drop_first()[j] == self.cursors@[k];
                assert(pieces_all[j + 1].within(max));
            }
            assert(pieces_all[0].within(max));
            lemma_clamped_to_head_shows_head(
                self.scroll_position as int,
                self.primary_cursor.head as int,
                max as int,
                window_size,
            );
        }
        self.clamp_screen_to_primary_cursor(window_size);
    }
}

/// The pieces of a list start with the first piece of its first selection.
proof fn lemma_first_piece(cursors: Seq<Cursor>, size: int)
    requires
        cursors.len() >= 1,
        size >= 1,
        length_of(cursors[0]) / size >= 1,
    ensures
        all_pieces(cursors, size).len() >= 1,
        all_pieces(cursors, size)[0] == pieces(cursors[0], size)[0],
    decreases cursors.len(),
{
    if cursors.len() == 1 {
        assert(cursors.drop_last() =~= Seq::<Cursor>::empty());
        assert(all_pieces(Seq::<Cursor>::empty(), size) =~= Seq::<Cursor>::empty());
        assert(cursors.last() == cursors[0]);
        assert(all_pieces(cursors, size) =~= pieces(cursors[0], size));
    } else {
        let rest = cursors.drop_last();
        assert(rest[0] == cursors[0]);
        lemma_first_piece(rest, size);
    }
}

impl Buffer {
    /// The first offset after `offset` holding `byte`, if any.
    fn find_next_byte(&self, offset: usize, target: u8) -> (found: Option<usize>)
        requires
            offset <= self.contents@.len(),
            self.contents@.len() <= isize::MAX,
        ensures
            found is Some <==> next_byte(self.contents@, offset as int, target) is Some,
            found matches Some(index) ==> next_byte(self.contents@, offset as int, target) == Some(
                index as int,
            ) && offset < index < self.contents@.len(),
    {
        let mut index: usize = offset + 1;
        while index < self.contents.len()
            invariant
                offset < index,
                offset <= self.contents@.len(),
                forall|i: int| offset < i < index && i < self.contents@.len() ==> self.contents@[i] != target,
            decreases self.contents@.len() - index,
        {
            if self.contents[index] == target {
                let ghost chosen = choose|j: int|
                    offset < j < self.contents@.len() && self.contents@[j] == target && forall|i: int|
                        offset < i < j ==> self.contents@[i] != target;
                assert(offset < index < self.contents@.len() && self.contents@[index as int] == target);
                assert(chosen == index) by {
                    if chosen < index {
                    } else if chosen > index {
                        assert(self.contents@[index as int] != target);
                    }
                }
                return Some(index);
            }
            index = index + 1;
        }
        None
    }

    /// Moves every head to just before the next `byte`, see `tilled_to_byte`.
    #[verifier::spinoff_prover]
    fn till_byte(&mut self, target: u8, extend: bool, window_size: WindowSize)
        requires
            old(self).sizes_ok(window_size),
        ensures
            ({
                let moved_primary = tilled_to_byte(old(self).primary_cursor, extend, old(self).contents@, target);
                let moved_cursors = old(self).cursors@.map_values(
                    |cursor: Cursor| tilled_to_byte(cursor, extend, old(self).contents@, target),
                );
                let primary = merged(moved_primary, moved_cursors, 0).0;
                let cursors = merged(moved_primary, moved_cursors, 0).1;
                &&& *final(self) == (Buffer {
                    primary_cursor: primary,
                    cursors: final(self).cursors,
                    scroll_position: clamped_to_head(
                        old(self).scroll_position as int,
                        primary.head as int,
                        old(self).max_index() as int,
                        window_size,
                    ) as usize,
                    ..*old(self)
                })
                &&& final(self).cursors@ == cursors
            }),
            final(self).sizes_ok(window_size),
            old(self).wf(window_size) ==> final(self).wf(window_size),
            old(self).scroll_position % 16 == 0 ==> final(self).scroll_position % 16 == 0,
    {
        let ghost max = self.max_index();
        if let Some(found) = self.find_next_byte(self.primary_cursor.head, target) {
            if !extend {
                self.primary_cursor.tail = self.primary_cursor.head;
            }
            self.primary_cursor.head = found - 1;
        }
        let ghost before = *self;
        let mut index: usize = 0;
        while index < self.cursors.len()
            invariant
                index <= self.cursors@.len() == before.cursors@.len(),
                *self == (Buffer { cursors: self.cursors, ..before }),
                max == before.max_index(),
                before.contents@.len() <= isize::MAX,
                all_within(before.cursors@, max),
                forall|k: int|
                    0 <= k < index ==> self.cursors@[k] == tilled_to_byte(
                        before.cursors@[k],
                        extend,
                        before.contents@,
                        target,
                    ),
                forall|k: int| index <= k < self.cursors@.len() ==> self.cursors@[k] == before.cursors@[k],
                all_within(self.cursors@, max),
            decreases self.cursors@.len() - index,
        {
            let mut cursor = self.cursors[index];
            assert(cursor.within(max));
            if let Some(found) = self.find_next_byte(cursor.head, target) {
                if !extend {
                    cursor.tail = cursor.head;
                }
                cursor.head = found - 1;
            }
            assert(cursor.within(max));
            self.cursors.set(index, cursor);
            assert forall|k: int| 0 <= k < self.cursors@.len() implies (#[trigger] self.cursors@[k]).within(max) by {
                if k != index {
                    assert(self.cursors@[k] == before.cursors@[k] || k < index);
                }
            }
            index = index + 1;
        }
        assert(self.cursors@ =~= before.cursors@.map_values(
            |cursor: Cursor| tilled_to_byte(cursor, extend, before.contents@, target),
        ));
        self.combine_cursors_if_overlapping();
        proof {
            if self.scroll_position % 16 == 0 {
                lemma_clamped_to_head_whole_line(
                    self.scroll_position as int,
                    self.primary_cursor.head as int,
                    max as int,
                    window_size,
                );
            }
            lemma_clamped_to_head_shows_head(
                self.scroll_position as int,
                self.primary_cursor.head as int,
                max as int,
                window_size,
            );
        }
        self.clamp_screen_to_primary_cursor(window_size);
    }

    /// The bytes under `cursor`.
    pub fn selected_bytes(&self, cursor: Cursor) -> (bytes: Vec<u8>)
        requires
            cursor.upper() < self.contents@.len(),
        ensures
            bytes@ == selected_bytes_of(self.contents@, cursor),
    {
        let lower = cursor.lower_bound();
        let upper = cursor.upper_bound();
        let length = self.contents.len();
        let mut bytes: Vec<u8> = Vec::new();
        let mut index: usize = lower;
        while index <= upper
            invariant
                lower == cursor.lower(),
                upper == cursor.upper(),
                length == self.contents@.len(),
                upper < length,
                lower <= index <= upper + 1,
                bytes@ == self.contents@.subrange(lower as int, index as int),
            decreases upper + 1 - index,
        {
            bytes.push(self.contents[index]);
            assert(bytes@ =~= self.contents@.subrange(lower as int, index + 1));
            index = index + 1;
        }
        bytes
    }

    /// The offset that `cursor` spells, if it lies in the contents.
    fn offset_under(&self, cursor: Cursor) -> (offset: Option<usize>)
        requires
            cursor.upper() < self.contents@.len(),
        ensures
            offset is Some <==> valid_offset(self.contents@, cursor),
            offset matches Some(o) ==> o == selection_value(self.contents@, cursor),
    {
        let bytes = self.selected_bytes(cursor);
        let length = self.contents.len();
        match bytes_to_nat(bytes.as_slice()) {
            Some(value) => {
                if (value as u128) < (length as u128) {
                    Some(value as usize)
                } else {
                    None
                }
            },
            None => None,
        }
    }

    /// What `jump_to_selected_offset` leaves, given the buffer before it.
    #[verifier::opaque]
    pub open spec fn jump_to_selected_offset_effect(before: Buffer, after: Buffer, window_size: WindowSize) -> bool {
        &&& ({
            let contents = before.contents@;
            let all = seq![before.primary_cursor] + before.cursors@;
            if !all_valid_offsets(contents, all) {
                after == (Buffer {
                    alert_message: Some(
                        if before.cursors@.len() == 0 {
                            Alert::SelectionNotValidOffset
                        } else {
                            Alert::NotAllSelectionsValidOffsets
                        },
                    ),
                    ..before
                })
            } else {
                exists|sorted: Seq<Cursor>|
                    #![trigger sorted_by_head(sorted)]
                    {
                        let primary = merged(jumped(contents, before.primary_cursor), sorted, 0).0;
                        &&& sorted.to_multiset() == before.cursors@.map_values(
                            |cursor: Cursor| jumped(contents, cursor),
                        ).to_multiset()
                        &&& sorted_by_head(sorted)
                        &&& keeps_order_of_equal_heads(
                            before.cursors@.map_values(|cursor: Cursor| jumped(contents, cursor)),
                            sorted,
                        )
                        &&& after == (Buffer {
                            primary_cursor: primary,
                            cursors: after.cursors,
                            scroll_position: clamped_to_head(
                                before.scroll_position as int,
                                primary.head as int,
                                before.max_index() as int,
                                window_size,
                            ) as usize,
                            ..before
                        })
                        &&& after.cursors@ == merged(
                            jumped(contents, before.primary_cursor),
                            sorted,
                            0,
                        ).1
                    }
            }
        })
        &&& (after.sizes_ok(window_size))
        &&& (before.wf(window_size) ==> after.wf(window_size))
        &&& (before.scroll_position % 16 == 0 ==> after.scroll_position % 16 == 0)
    }

    /// Moves every selection to the single byte at the offset that its bytes
    /// spell (little-endian). When some selection does not spell an offset
    /// inside the contents, nothing moves and an alert is shown.
    pub fn jump_to_selected_offset(&mut self, window_size: WindowSize)
        requires
            old(self).sizes_ok(window_size),
            old(self).contents@.len() > 0,
        ensures
            Self::jump_to_selected_offset_effect(*old(self), *final(self), window_size),
    {
        proof {
            reveal(Buffer::jump_to_selected_offset_effect);
        }
        let ghost all = seq![self.primary_cursor] + self.cursors@;
        let ghost contents = self.contents@;
        let ghost max = self.max_index();
        let primary_offset = self.offset_under(self.primary_cursor);
        let mut offsets: Vec<usize> = Vec::new();
        let mut all_valid = primary_offset.is_some();
        assert(all.take(1)[0] == self.primary_cursor);
        let mut index: usize = 0;
        while index < self.cursors.len()
            invariant
                *self == *old(self),
                all == seq![self.primary_cursor] + self.cursors@,
                contents == self.contents@,
                max == self.max_index(),
                self.sizes_ok(window_size),
                contents.len() > 0,
                index <= self.cursors@.len(),
                primary_offset is Some <==> valid_offset(contents, self.primary_cursor),
                all_valid <==> all_valid_offsets(contents, all.take(index + 1)),
                all_valid ==> offsets@.len() == index,
                all_valid ==> forall|k: int| 0 <= k < index ==> offsets@[k] == selection_value(contents, #[trigger] self.cursors@[k]),
            decreases self.cursors@.len() - index,
        {
            assert(self.cursors@[index as int].within(max));
            let offset = self.offset_under(self.cursors[index]);
            assert(all.take(index + 2)[index + 1] == self.cursors@[index as int]);
            if all_valid {
                match offset {
                    Some(o) => {
                        offsets.push(o);
                    },
                    None => {
                        all_valid = false;
                    },
                }
            }
            assert(all.take(index + 2).drop_last() =~= all.take(index + 1));
            index = index + 1;
        }
        assert(all.take(index + 1) =~= all);
        if !all_valid {
            if self.cursors.len() == 0 {
                self.alert_message = Some(Alert::SelectionNotValidOffset);
            } else {
                self.alert_message = Some(Alert::NotAllSelectionsValidOffsets);
            }
            return;
        }
        assert(valid_offset(contents, all[0]));
        let primary_value = match primary_offset {
            Some(o) => o,
            None => 0,
        };
        self.primary_cursor = Cursor::at(primary_value);
        let mut jumped_cursors: Vec<Cursor> = Vec::new();
        let mut index: usize = 0;
        while index < offsets.len()
            invariant
                index <= offsets@.len() == old(self).cursors@.len(),
                forall|k: int| 0 <= k < offsets@.len() ==> offsets@[k] == selection_value(contents, #[trigger] old(self).cursors@[k]),
                jumped_cursors@ =~= old(self).cursors@.take(index as int).map_values(|cursor: Cursor| jumped(contents, cursor)),
            decreases offsets@.len() - index,
        {
            jumped_cursors.push(Cursor::at(offsets[index]));
            index = index + 1;
        }
        assert(old(self).cursors@.take(index as int) =~= old(self).cursors@);
        let ghost unsorted = jumped_cursors@;
        sort_cursors_by_head(&mut jumped_cursors);
        self.cursors = jumped_cursors;
        proof {
            lemma_same_multiset(unsorted, self.cursors@);
            assert forall|k: int| 0 <= k < self.cursors@.len() implies (#[trigger] self.cursors@[k]).within(max) by {
                assert(self.cursors@.contains(self.cursors@[k]));
                let j = choose|j: int| 0 <= j < unsorted.len() && unsorted[j] == self.cursors@[k];
                assert(all[j + 1] == old(self).cursors@[j]);
                assert(valid_offset(contents, all[j + 1]));
            }
        }
        let ghost sorted = self.cursors@;
        self.combine_cursors_if_overlapping();
        proof {
            lemma_clamped_to_head_shows_head(
                self.scroll_position as int,
                self.primary_cursor.head as int,
                max as int,
                window_size,
            );
        }
        self.clamp_screen_to_primary_cursor(window_size);
        assert(sorted_by_head(sorted));
    }

    /// The offset that `cursor` spells from the mark before it, if it lies
    /// in the contents.
    fn relative_offset_under(&self, cursor: Cursor, sorted_marks: &Vec<usize>) -> (offset: Option<usize>)
        requires
            cursor.upper() < self.contents@.len(),
            strictly_increasing(sorted_marks@),
            forall|m: usize| sorted_marks@.contains(m) <==> self.marks@.contains(m),
        ensures
            offset is Some <==> valid_relative_offset(self.contents@, cursor, self.marks@),
            offset matches Some(o) ==> o == relative_target(self.contents@, cursor, self.marks@),
    {
        let bytes = self.selected_bytes(cursor);
        let length = self.contents.len();
        let mark = mark_before(cursor.lower_bound(), sorted_marks.as_slice());
        proof {
            lemma_mark_before_is_previous_mark(mark, cursor.lower(), sorted_marks@, self.marks@);
        }
        match bytes_to_nat(bytes.as_slice()) {
            Some(value) => {
                if (value as u128) + (mark as u128) < (length as u128) {
                    Some(mark + value as usize)
                } else {
                    None
                }
            },
            None => None,
        }
    }

    /// What `jump_to_selected_offset_relative_to_mark` leaves, given the buffer before it.
    #[verifier::opaque]
    pub open spec fn jump_to_selected_offset_relative_to_mark_effect(before: Buffer, after: Buffer, window_size: WindowSize) -> bool {
        &&& ({
            let contents = before.contents@;
            let marks = before.marks@;
            let all = seq![before.primary_cursor] + before.cursors@;
            if !all_valid_relative_offsets(contents, all, marks) {
                after == (Buffer {
                    alert_message: Some(
                        if before.cursors@.len() == 0 {
                            Alert::SelectionNotValidOffset
                        } else {
                            Alert::NotAllSelectionsValidOffsets
                        },
                    ),
                    ..before
                })
            } else {
                exists|sorted: Seq<Cursor>|
                    #![trigger sorted_by_head(sorted)]
                    {
                        let first = jumped_relative(contents, before.primary_cursor, marks);
                        let primary = merged(first, sorted, 0).0;
                        &&& sorted.to_multiset() == before.cursors@.map_values(
                            |cursor: Cursor| jumped_relative(contents, cursor, marks),
                        ).to_multiset()
                        &&& sorted_by_head(sorted)
                        &&& keeps_order_of_equal_heads(
                            before.cursors@.map_values(|cursor: Cursor| jumped_relative(contents, cursor, marks)),
                            sorted,
                        )
                        &&& after == (Buffer {
                            primary_cursor: primary,
                            cursors: after.cursors,
                            scroll_position: clamped_to_head(
                                before.scroll_position as int,
                                primary.head as int,
                                before.max_index() as int,
                                window_size,
                            ) as usize,
                            ..before
                        })
                        &&& after.cursors@ == merged(first, sorted, 0).1
                    }
            }
        })
        &&& (after.sizes_ok(window_size))
        &&& (before.wf(window_size) ==> after.wf(window_size))
        &&& (before.scroll_position % 16 == 0 ==> after.scroll_position % 16 == 0)
    }

    /// Like `jump_to_selected_offset`, but each offset counts from the mark
    /// at or before the start of its selection (or from 0).
    pub fn jump_to_selected_offset_relative_to_mark(&mut self, window_size: WindowSize)
        requires
            old(self).sizes_ok(window_size),
            old(self).contents@.len() > 0,
        ensures
            Self::jump_to_selected_offset_relative_to_mark_effect(*old(self), *final(self), window_size),
    {
        proof {
            reveal(Buffer::jump_to_selected_offset_relative_to_mark_effect);
        }
        let sorted_marks = self.sorted_marks();
        let ghost all = seq![self.primary_cursor] + self.cursors@;
        let ghost contents = self.contents@;
        let ghost marks = self.marks@;
        let ghost max = self.max_index();
        let primary_offset = self.relative_offset_under(self.primary_cursor, &sorted_marks);
        let mut offsets: Vec<usize> = Vec::new();
        let mut all_valid = primary_offset.is_some();
        assert(all.take(1)[0] == self.primary_cursor);
        let mut index: usize = 0;
        while index < self.cursors.len()
            invariant
                *self == *old(self),
                all == seq![self.primary_cursor] + self.cursors@,
                contents == self.contents@,
                marks == self.marks@,
                strictly_increasing(sorted_marks@),
                forall|m: usize| sorted_marks@.contains(m) <==> self.marks@.contains(m),
                max == self.max_index(),
                self.sizes_ok(window_size),
                contents.len() > 0,
                index <= self.cursors@.len(),
                primary_offset is Some <==> valid_relative_offset(contents, self.primary_cursor, marks),
                all_valid <==> all_valid_relative_offsets(contents, all.take(index + 1), marks),
                all_valid ==> offsets@.len() == index,
                all_valid ==> forall|k: int| 0 <= k < index ==> offsets@[k] == relative_target(contents, #[trigger] self.cursors@[k], marks),
            decreases self.cursors@.len() - index,
        {
            assert(self.cursors@[index as int].within(max));
            let offset = self.relative_offset_under(self.cursors[index], &sorted_marks);
            assert(all.take(index + 2)[index + 1] == self.cursors@[index as int]);
            if all_valid {
                match offset {
                    Some(o) => {
                        offsets.push(o);
                    },
                    None => {
                        all_valid = false;
                    },
                }
            }
            assert(all.take(index + 2).drop_last() =~= all.take(index + 1));
            index = index + 1;
        }
        assert(all.take(index + 1) =~= all);
        if !all_valid {
            if self.cursors.len() == 0 {
                self.alert_message = Some(Alert::SelectionNotValidOffset);
            } else {
                self.alert_message = Some(Alert::NotAllSelectionsValidOffsets);
            }
            return;
        }
        assert(valid_relative_offset(contents, all[0], marks));
        let primary_value = match primary_offset {
            Some(o) => o,
            None => 0,
        };
        self.primary_cursor = Cursor::at(primary_value);
        let mut jumped_cursors: Vec<Cursor> = Vec::new();
        let mut index: usize = 0;
        while index < offsets.len()
            invariant
                index <= offsets@.len() == old(self).cursors@.len(),
                forall|k: int| 0 <= k < offsets@.len() ==> offsets@[k] == relative_target(contents, #[trigger] old(self).cursors@[k], marks),
                jumped_cursors@ =~= old(self).cursors@.take(index as int).map_values(|cursor: Cursor| jumped_relative(contents, cursor, marks)),
            decreases offsets@.len() - index,
        {
            jumped_cursors.push(Cursor::at(offsets[index]));
            index = index + 1;
        }
        assert(old(self).cursors@.take(index as int) =~= old(self).cursors@);
        let ghost unsorted = jumped_cursors@;
        sort_cursors_by_head(&mut jumped_cursors);
        self.cursors = jumped_cursors;
        proof {
            lemma_same_multiset(unsorted, self.cursors@);
            assert forall|k: int| 0 <= k < self.cursors@.len() implies (#[trigger] self.cursors@[k]).within(max) by {
                assert(self.cursors@.contains(self.cursors@[k]));
                let j = choose|j: int| 0 <= j < unsorted.len() && unsorted[j] == self.cursors@[k];
                assert(all[j + 1] == old(self).cursors@[j]);
                assert(valid_relative_offset(contents, all[j + 1], marks));
            }
        }
        let ghost sorted = self.cursors@;
        self.combine_cursors_if_overlapping();
        proof {
            lemma_clamped_to_head_shows_head(
                self.scroll_position as int,
                self.primary_cursor.head as int,
                max as int,
                window_size,
            );
        }
        self.clamp_screen_to_primary_cursor(window_size);
        assert(sorted_by_head(sorted));
    }

    /// Moves the head of every non-primary selection to just before the next
    /// mark, see `tilled_to_mark`.
    fn till_marks_in_cursors(&mut self, sorted_marks: &Vec<usize>, extend: bool, max_contents_index: usize)
        requires
            max_contents_index == old(self).max_index(),
            max_contents_index < usize::MAX,
            strictly_increasing(sorted_marks@),
            forall|offset: usize| sorted_marks@.contains(offset) <==> old(self).marks@.contains(offset),
            marks_within(old(self).marks@, max_contents_index) ==> all_within(old(self).cursors@, max_contents_index),
        ensures
            *final(self) == (Buffer { cursors: final(self).cursors, ..*old(self) }),
            final(self).cursors@ == old(self).cursors@.map_values(
                |cursor: Cursor| tilled_to_mark(cursor, extend, old(self).marks@, max_contents_index),
            ),
            marks_within(old(self).marks@, max_contents_index) ==> all_within(final(self).cursors@, max_contents_index),
    {
        let ghost marks = self.marks@;
        let ghost within = marks_within(marks, max_contents_index);
        let ghost before = *self;
        let mut index: usize = 0;
        while index < self.cursors.len()
            invariant
                index <= self.cursors@.len() == before.cursors@.len(),
                *self == (Buffer { cursors: self.cursors, ..before }),
                max_contents_index == before.max_index(),
                max_contents_index < usize::MAX,
                marks == before.marks@,
                strictly_increasing(sorted_marks@),
                forall|offset: usize| sorted_marks@.contains(offset) <==> marks.contains(offset),
                within == marks_within(marks, max_contents_index),
                within ==> all_within(before.cursors@, max_contents_index),
                within ==> all_within(self.cursors@, max_contents_index),
                forall|k: int|
                    0 <= k < index ==> self.cursors@[k] == tilled_to_mark(
                        before.cursors@[k],
                        extend,
                        marks,
                        max_contents_index,
                    ),
                forall|k: int| index <= k < self.cursors@.len() ==> self.cursors@[k] == before.cursors@[k],
            decreases self.cursors@.len() - index,
        {
            let mut cursor = self.cursors[index];
            let mark_after_cursor = mark_after(cursor.head, sorted_marks.as_slice(), max_contents_index);
            proof {
                lemma_mark_after_is_next_mark(mark_after_cursor, cursor.head, sorted_marks@, marks, max_contents_index);
            }
            if !extend {
                cursor.tail = cursor.head;
            }
            cursor.head = mark_after_cursor - 1;
            self.cursors.set(index, cursor);
            proof {
                if within {
                    assert forall|k: int| 0 <= k < self.cursors@.len() implies (#[trigger] self.cursors@[k]).within(max_contents_index) by {
                        if k != index {
                            assert(self.cursors@[k] == before.cursors@[k] || k < index);
                        }
                    }
                }
            }
            index = index + 1;
        }
        assert(self.cursors@ =~= before.cursors@.map_values(
            |cursor: Cursor| tilled_to_mark(cursor, extend, marks, max_contents_index),
        ));
    }

    /// What `till_mark` leaves, given the buffer before it.
    #[verifier::opaque]
    pub open spec fn till_mark_effect(before: Buffer, after: Buffer, extend: bool, window_size: WindowSize) -> bool {
        &&& ({
            let max = before.max_index();
            let marks = before.marks@;
            let moved_primary = tilled_to_mark(before.primary_cursor, extend, marks, max);
            let moved_cursors = before.cursors@.map_values(
                |cursor: Cursor| tilled_to_mark(cursor, extend, marks, max),
            );
            let primary = merged(moved_primary, moved_cursors, 0).0;
            let cursors = merged(moved_primary, moved_cursors, 0).1;
            &&& after == (Buffer {
                primary_cursor: primary,
                cursors: after.cursors,
                scroll_position: clamped_to_head(
                    before.scroll_position as int,
                    primary.head as int,
                    max as int,
                    window_size,
                ) as usize,
                ..before
            })
            &&& after.cursors@ == cursors
        })
        &&& (marks_within(before.marks@, before.max_index()) ==> after.sizes_ok(window_size))
        &&& (marks_within(before.marks@, before.max_index()) && before.wf(window_size)
            ==> after.wf(window_size))
        &&& (before.scroll_position % 16 == 0 ==> after.scroll_position % 16 == 0)
    }

    /// Moves every head to just before the next mark (or to the last byte).
    #[verifier::rlimit(60)]
    #[verifier::spinoff_prover]
    pub fn till_mark(&mut self, extend: bool, window_size: WindowSize)
        requires
            old(self).sizes_ok(window_size),
        ensures
            ({
                let max = old(self).max_index();
                let marks = old(self).marks@;
                let moved_primary = tilled_to_mark(old(self).primary_cursor, extend, marks, max);
                let moved_cursors = old(self).cursors@.map_values(
                    |cursor: Cursor| tilled_to_mark(cursor, extend, marks, max),
                );
                let primary = merged(moved_primary, moved_cursors, 0).0;
                let cursors = merged(moved_primary, moved_cursors, 0).1;
                &&& *final(self) == (Buffer {
                    primary_cursor: primary,
                    cursors: final(self).cursors,
                    scroll_position: clamped_to_head(
                        old(self).scroll_position as int,
                        primary.head as int,
                        max as int,
                        window_size,
                    ) as usize,
                    ..*old(self)
                })
                &&& final(self).cursors@ == cursors
            }),
            marks_within(old(self).marks@, old(self).max_index()) ==> final(self).sizes_ok(window_size),
            marks_within(old(self).marks@, old(self).max_index()) && old(self).wf(window_size)
                ==> final(self).wf(window_size),
            old(self).scroll_position % 16 == 0 ==> final(self).scroll_position % 16 == 0,
    {
        let sorted_marks = self.sorted_marks();
        let max_contents_index = self.max_contents_index();
        let ghost marks = self.marks@;
        let ghost within = marks_within(marks, max_contents_index);
        let mark_after_primary = mark_after(self.primary_cursor.head, sorted_marks.as_slice(), max_contents_index);
        proof {
            lemma_mark_after_is_next_mark(mark_after_primary, self.primary_cursor.head, sorted_marks@, marks, max_contents_index);
        }
        if !extend {
            self.primary_cursor.tail = self.primary_cursor.head;
        }
        self.primary_cursor.head = mark_after_primary - 1;
        self.till_marks_in_cursors(&sorted_marks, extend, max_contents_index);
        self.combine_cursors_if_overlapping();
        proof {
            if self.scroll_position % 16 == 0 {
                lemma_clamped_to_head_whole_line(
                    self.scroll_position as int,
                    self.primary_cursor.head as int,
                    max_contents_index as int,
                    window_size,
                );
            }
            if within {
                lemma_clamped_to_head_shows_head(
                    self.scroll_position as int,
                    self.primary_cursor.head as int,
                    max_contents_index as int,
                    window_size,
                );
            }
        }
        self.clamp_screen_to_primary_cursor(window_size);
    }

    /// What `till_null` leaves, given the buffer before it.
    #[verifier::opaque]
    pub open spec fn till_null_effect(before: Buffer, after: Buffer, extend: bool, window_size: WindowSize) -> bool {
        &&& ({
            let moved_primary = tilled_to_byte(before.primary_cursor, extend, before.contents@, 0);
            let moved_cursors = before.cursors@.map_values(
                |cursor: Cursor| tilled_to_byte(cursor, extend, before.contents@, 0),
            );
            let primary = merged(moved_primary, moved_cursors, 0).0;
            let cursors = merged(moved_primary, moved_cursors, 0).1;
            &&& after == (Buffer {
                primary_cursor: primary,
                cursors: after.cursors,
                scroll_position: clamped_to_head(
                    before.scroll_position as int,
                    primary.head as int,
                    before.max_index() as int,
                    window_size,
                ) as usize,
                ..before
            })
            &&& after.cursors@ == cursors
        })
        &&& (after.sizes_ok(window_size))
        &&& (before.wf(window_size) ==> after.wf(window_size))
        &&& (before.scroll_position % 16 == 0 ==> after.scroll_position % 16 == 0)
    }

    /// Moves every head to just before the next NUL byte.
    pub fn till_null(&mut self, extend: bool, window_size: WindowSize)
        requires
            old(self).sizes_ok(window_size),
        ensures
            Self::till_null_effect(*old(self), *final(self), extend, window_size),
    {
        proof {
            reveal(Buffer::till_null_effect);
        }
        self.till_byte(0, extend, window_size);
    }

    /// What `till_FF` leaves, given the buffer before it.
    #[verifier::opaque]
    pub open spec fn till_FF_effect(before: Buffer, after: Buffer, extend: bool, window_size: WindowSize) -> bool {
        &&& ({
            let moved_primary = tilled_to_byte(before.primary_cursor, extend, before.contents@, 0xFF);
            let moved_cursors = before.cursors@.map_values(
                |cursor: Cursor| tilled_to_byte(cursor, extend, before.contents@, 0xFF),
            );
            let primary = merged(moved_primary, moved_cursors, 0).0;
            let cursors = merged(moved_primary, moved_cursors, 0).1;
            &&& after == (Buffer {
                primary_cursor: primary,
                cursors: after.cursors,
                scroll_position: clamped_to_head(
                    before.scroll_position as int,
                    primary.head as int,
                    before.max_index() as int,
                    window_size,
                ) as usize,
                ..before
            })
            &&& after.cursors@ == cursors
        })
        &&& (after.sizes_ok(window_size))
        &&& (before.wf(window_size) ==> after.wf(window_size))
        &&& (before.scroll_position % 16 == 0 ==> after.scroll_position % 16 == 0)
    }

    /// Moves every head to just before the next 0xFF byte.
    #[allow(non_snake_case)]
    pub fn till_FF(&mut self, extend: bool, window_size: WindowSize)
        requires
            old(self).sizes_ok(window_size),
        ensures
            Self::till_FF_effect(*old(self), *final(self), extend, window_size),
    {
        proof {
            reveal(Buffer::till_FF_effect);
        }
        self.till_byte(0xFF, extend, window_size);
    }
}

/// Swapping the primary selection with one of the others, and reordering
/// them, keeps every selection inside the contents.
proof fn lemma_rotation_keeps_bounds(
    before: Seq<Cursor>,
    after: Seq<Cursor>,
    old_primary: Cursor,
    new_primary: Cursor,
    max: usize,
)
    requires
        old_primary.within(max),
        all_within(before, max),
        before.contains(new_primary),
        exists|i: int| 0 <= i < before.len() && after.to_multiset() == before.update(i, old_primary).to_multiset(),
    ensures
        new_primary.within(max),
        all_within(after, max),
{
    broadcast use vstd::seq_lib::to_multiset_contains;

    let i = choose|i: int| 0 <= i < before.len() && after.to_multiset() == before.update(i, old_primary).to_multiset();
    let updated = before.update(i, old_primary);
    assert forall|k: int| 0 <= k < after.len() implies (#[trigger] after[k]).within(max) by {
        assert(after.contains(after[k]));
        assert(after.to_multiset().count(after[k]) > 0);
        assert(updated.contains(after[k]));
        let j = choose|j: int| 0 <= j < updated.len() && updated[j] == after[k];
        if j != i {
            assert(updated[j] == before[j]);
        }
    }
}

/// Flipping the selections twice restores every selection; only the view
/// may have moved.
pub proof fn lemma_flip_selection_twice(first: Buffer, second: Buffer, third: Buffer, window_size: WindowSize)
    requires
        Buffer::flip_selection_effect(first, second, window_size),
        Buffer::flip_selection_effect(second, third, window_size),
    ensures
        third.primary_cursor == first.primary_cursor,
        third.cursors@ == first.cursors@,
        same_except_view(&first, &third),
{
    reveal(Buffer::flip_selection_effect);
    assert(third.cursors@ =~= first.cursors@);
}

/// Heads strictly increase along the list.
pub open spec fn heads_increasing(cursors: Seq<Cursor>) -> bool {
    forall|i: int, j: int| 0 <= i < j < cursors.len() ==> cursors[i].head < cursors[j].head
}

/// A list with strictly increasing heads is the only list sorted by head
/// that holds its selections.
proof fn lemma_sorted_by_head_unique(s: Seq<Cursor>, t: Seq<Cursor>)
    requires
        heads_increasing(s),
        sorted_by_head(t),
        s.to_multiset() == t.to_multiset(),
    ensures
        s == t,
    decreases s.len(),
{
    broadcast use vstd::seq_lib::to_multiset_remove;

    vstd::seq_lib::to_multiset_len(s);
    vstd::seq_lib::to_multiset_len(t);
    assert(s.len() == t.len());
    if s.len() == 0 {
        assert(s =~= t);
    } else {
        lemma_same_multiset(s, t);
        assert(t.contains(s[0]));
        assert(s.contains(t[0]));
        let k = choose|k: int| 0 <= k < s.len() && s[k] == t[0];
        let m = choose|m: int| 0 <= m < t.len() && t[m] == s[0];
        assert(t[0].head <= t[m].head);
        assert(k == 0);
        assert(s.remove(0) =~= s.drop_first());
        assert(t.remove(0) =~= t.drop_first());
        lemma_sorted_by_head_unique(s.drop_first(), t.drop_first());
        assert forall|i: int| 0 <= i < s.len() implies s[i] == t[i] by {
            if i > 0 {
                assert(s[i] == s.drop_first()[i - 1]);
                assert(t[i] == t.drop_first()[i - 1]);
            }
        }
        assert(s =~= t);
    }
}

/// Rotating the selections forward and then backward gives back the
/// primary selection and the other selections, when the other selections
/// are sorted by head and no two selections share a head.
pub proof fn lemma_rotate_forward_then_backward(first: Buffer, second: Buffer, third: Buffer, window_size: WindowSize)
    requires
        first.cursors@.len() > 0,
        heads_increasing(first.cursors@),
        forall|k: int| 0 <= k < first.cursors@.len() ==> first.cursors@[k].head != first.primary_cursor.head,
        Buffer::rotate_selections_forward_effect(first, second, window_size),
        Buffer::rotate_selections_backward_effect(second, third, window_size),
    ensures
        third.primary_cursor == first.primary_cursor,
        third.cursors@ == first.cursors@,
{
    reveal(Buffer::rotate_selections_forward_effect);
    reveal(Buffer::rotate_selections_backward_effect);
    broadcast use vstd::seq_lib::to_multiset_update;
    broadcast use vstd::multiset::group_multiset_axioms;

    let p = first.primary_cursor;
    let cs = first.cursors@;
    let n = cs.len() as int;
    lemma_head_search_sorted(cs, p.head, 0, n);
    let index = head_search(cs, p.head, 0, n);
    let c1 = second.cursors@;
    if index < n {
        assert(p.head < cs[index].head);
        assert(c1 == cs.update(index, p));
        assert(sorted_by_head(c1)) by {
            assert forall|i: int, j: int| 0 <= i <= j < n implies c1[i].head <= c1[j].head by {
                if i < index {
                    assert(cs[i].head < p.head);
                }
            }
        }
        let h = second.primary_cursor.head;
        lemma_head_search_sorted(c1, h, 0, n);
        let back = head_search(c1, h, 0, n);
        if back < index {
            assert(c1[back] == cs[back]);
            assert(cs[back].head < p.head);
            assert(false);
        } else if back == index {
            assert(c1[back] == p);
            assert(false);
        } else if back > index + 1 {
            assert(c1[index + 1] == cs[index + 1]);
            assert(cs[index].head < cs[index + 1].head);
            assert(c1[index + 1].head < h);
            assert(false);
        }
        assert(back == index + 1);
        assert(third.cursors@ =~= cs);
    } else {
        assert(second.primary_cursor == cs[0]);
        vstd::seq_lib::to_multiset_len(c1);
        vstd::seq_lib::to_multiset_len(cs.update(0, p));
        assert(c1.len() == n);
        lemma_same_multiset(c1, cs.update(0, p));
        assert(forall|k: int| 0 <= k < n ==> cs[k].head < p.head);
        assert forall|x: Cursor| c1.contains(x) implies x == p || (x.head > cs[0].head && x.head < p.head) by {
            assert(cs.update(0, p).contains(x));
            let k = choose|k: int| 0 <= k < n && cs.update(0, p)[k] == x;
            if k > 0 {
                assert(x == cs[k]);
            }
        }
        let h = cs[0].head;
        lemma_head_search_sorted(c1, h, 0, n);
        let back = head_search(c1, h, 0, n);
        assert(c1.contains(c1[0]));
        assert(back == 0);
        assert(cs.update(0, p).contains(p)) by {
            assert(cs.update(0, p)[0] == p);
        }
        assert(c1.contains(p));
        let j = choose|j: int| 0 <= j < n && c1[j] == p;
        assert(c1.contains(c1.last()));
        assert(c1.last().head >= c1[j].head);
        assert(c1.last() == p);
        let restored = c1.update(n - 1, cs[0]);
        assert(restored.to_multiset() =~= cs.to_multiset()) by {
            broadcast use vstd::seq_lib::to_multiset_contains;

            assert(cs.update(0, p).to_multiset() == cs.to_multiset().insert(p).remove(cs[0]));
            assert(restored.to_multiset() == c1.to_multiset().insert(cs[0]).remove(p));
            assert(cs.contains(cs[0]));
            assert(cs.to_multiset().count(cs[0]) > 0);
            assert forall|x: Cursor| #[trigger] restored.to_multiset().count(x) == cs.to_multiset().count(x) by {
                if x == p {
                    assert(!cs.contains(p));
                }
            }
        }
        lemma_sorted_by_head_unique(cs, third.cursors@);
    }
}

/// A selection is copied onto the next line(s): the copy starts a whole
/// number of lines further on, the fewest lines that put it past the
/// selection's last byte, so a selection within one line is copied onto the
/// very next line. Both ends move by that distance (stopping at `max_index`),
/// and there is a copy exactly when its start lies inside the contents.
pub proof fn lemma_copy_is_on_the_next_lines(cursor: Cursor, length: int, max_index: usize)
    requires
        length == max_index + 1,
        max_index + 16 <= isize::MAX,
        cursor.within(max_index),
    ensures
        copy_below(cursor, length, max_index) matches Some(copy) ==> {
            let distance = copy.lower() - cursor.lower();
            &&& distance % 16 == 0
            &&& cursor.upper() - cursor.lower() < distance <= cursor.upper() - cursor.lower() + 16
            &&& copy.head == min_of((cursor.head + distance) as usize, max_index)
            &&& copy.tail == min_of((cursor.tail + distance) as usize, max_index)
            &&& cursor.lower() + distance < length
        },
        copy_below(cursor, length, max_index) is None ==> forall|distance: int|
            #![trigger distance % 16]
            distance % 16 == 0 && cursor.upper() - cursor.lower() < distance <= cursor.upper() - cursor.lower() + 16
                ==> cursor.lower() + distance >= length,
{
    let span = cursor.upper() - cursor.lower();
    let offset = (span / 16 + 1) * 16;
    assert(offset % 16 == 0 && span < offset <= span + 16) by (nonlinear_arith)
        requires
            span >= 0,
            offset == (span / 16 + 1) * 16,
    ;
    if let Some(copy) = copy_below(cursor, length, max_index) {
        assert(copy.lower() == cursor.lower() + offset);
    }
    assert forall|distance: int|
        #![trigger distance % 16]
        distance % 16 == 0 && span < distance <= span + 16 implies distance == offset by {
        assert(distance == offset) by (nonlinear_arith)
            requires
                distance % 16 == 0,
                span < distance <= span + 16,
                offset % 16 == 0,
                span < offset <= span + 16,
        ;
    }
}

/// Paging a selection half a screen down moves its head that far (stopping
/// at the last byte); in select mode its tail stays where it was, so the
/// selection grows, and otherwise the tail moves as far as the head.
pub proof fn lemma_half_page_down_extends_in_select_mode(cursor: Cursor, amount: int, mode: Mode, max_index: usize)
    requires
        cursor.within(max_index),
        0 <= amount,
        max_index + amount <= usize::MAX,
    ensures
        moved_down(cursor, amount, mode, max_index).head == if cursor.head + amount <= max_index {
            cursor.head + amount
        } else {
            max_index as int
        },
        mode == Mode::Select ==> moved_down(cursor, amount, mode, max_index).tail == cursor.tail,
        mode != Mode::Select ==> moved_down(cursor, amount, mode, max_index).tail == if cursor.tail + amount
            <= max_index {
            cursor.tail + amount
        } else {
            max_index as int
        },
{
}

/// Paging a selection half a screen up moves its head that far back
/// (stopping at offset 0); in select mode its tail stays where it was, and
/// otherwise the tail moves as far as the head.
pub proof fn lemma_half_page_up_extends_in_select_mode(cursor: Cursor, amount: int, mode: Mode)
    requires
        0 <= amount,
    ensures
        moved_up(cursor, amount, mode).head == if cursor.head >= amount {
            cursor.head - amount
        } else {
            0
        },
        mode == Mode::Select ==> moved_up(cursor, amount, mode).tail == cursor.tail,
        mode != Mode::Select ==> moved_up(cursor, amount, mode).tail == if cursor.tail >= amount {
            cursor.tail - amount
        } else {
            0
        },
{
}

} // verus!
