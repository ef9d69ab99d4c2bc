use vstd::prelude::*;
use crate::buffer::{Alert, Buffer, PartialAction, Position};
use crate::buffer::edits::{edited, lemma_history_consistent_keeps, placed_after_edit};
use crate::buffer::screen::{clamped_to_head, lemma_clamped_to_head_shows_head, usable};
use crate::characters::{
    all_decimal_digits, all_hex_digits, decimal_value, hex_digit_value, hex_value, is_decimal_digit,
    nybble_from_hex, parse_decimal, parse_hex,
};
use crate::bytes::{bytes_to_nat, little_endian_value, u64_limit};
use crate::cursor::Cursor;
use crate::edit_action::EditAction;
use crate::action::{AppAction, Binding, BufferAction};
use crate::buffer::execute::{executed, exempt_from_view, reads_selection};
use crate::key::Key;
use crate::window_size::WindowSize;

verus! {

/// The byte with `high` as its upper four bits and `low` as its lower four.
pub open spec fn byte_of_nybbles(high: u8, low: u8) -> u8 {
    ((high as int * 16) % 256 + low) as u8
}

/// `(high << 4) | low`.
fn join_nybbles(high: u8, low: u8) -> (byte: u8)
    requires
        low < 16,
    ensures
        byte == byte_of_nybbles(high, low),
{
    let byte = high << 4 | low;
    assert(byte == ((high as int * 16) % 256 + low) as u8) by (bit_vector)
        requires
            low < 16,
            byte == high << 4 | low,
    ;
    byte
}

/// The key is a hexadecimal digit, with its value.
pub open spec fn hex_key(key: Key) -> Option<u8> {
    match key {
        Key::Char(c) => hex_digit_value(c),
        _ => None,
    }
}

/// The key is a decimal digit.
pub open spec fn decimal_key(key: Key) -> bool {
    match key {
        Key::Char(c) => is_decimal_digit(c),
        _ => false,
    }
}

/// A key that edits the entry text or moves in it.
pub open spec fn edits_entry(key: Key, digit: bool) -> bool {
    digit || key == Key::Backspace || key == Key::Delete || key == Key::Left || key == Key::Right
}

/// The entry text and its cursor after `key` (for keys that edit the entry).
pub open spec fn entry_after(text: Seq<char>, index: int, key: Key, digit: bool) -> (Seq<char>, int) {
    if digit {
        match key {
            Key::Char(c) => (text.insert(index, c), index + 1),
            _ => (text, index),
        }
    } else {
        match key {
            Key::Backspace => if index > 0 {
                (text.remove(index - 1), index - 1)
            } else {
                (text, index)
            },
            Key::Delete => if index < text.len() {
                (text.remove(index), index)
            } else {
                (text, index)
            },
            Key::Left => if index > 0 {
                (text, index - 1)
            } else {
                (text, index)
            },
            Key::Right => if index < text.len() {
                (text, index + 1)
            } else {
                (text, index)
            },
            _ => (text, index),
        }
    }
}

/// The hexadecimal prompt only ever holds hex digits: typing a hex digit,
/// deleting or moving keeps it so, and the cursor stays inside the text.
pub proof fn lemma_hex_entry_stays_hex(text: Seq<char>, index: int, key: Key)
    requires
        all_hex_digits(text),
        0 <= index <= text.len(),
    ensures
        all_hex_digits(entry_after(text, index, key, hex_key(key) is Some).0),
        0 <= entry_after(text, index, key, hex_key(key) is Some).1 <= entry_after(
            text,
            index,
            key,
            hex_key(key) is Some,
        ).0.len(),
{
    let after = entry_after(text, index, key, hex_key(key) is Some).0;
    assert forall|i: int| 0 <= i < after.len() implies (#[trigger] hex_digit_value(after[i])) is Some by {
        if hex_key(key) is Some {
            if i > index {
                assert(after[i] == text[i - 1]);
            } else if i < index {
                assert(after[i] == text[i]);
            }
        } else if key == Key::Backspace && index > 0 {
            if i >= index - 1 {
                assert(after[i] == text[i + 1]);
            } else {
                assert(after[i] == text[i]);
            }
        } else if key == Key::Delete && index < text.len() {
            if i >= index {
                assert(after[i] == text[i + 1]);
            } else {
                assert(after[i] == text[i]);
            }
        } else {
            assert(after[i] == text[i]);
        }
    }
}

/// The decimal prompt only ever holds decimal digits, in the same way.
pub proof fn lemma_decimal_entry_stays_decimal(text: Seq<char>, index: int, key: Key)
    requires
        all_decimal_digits(text),
        0 <= index <= text.len(),
    ensures
        all_decimal_digits(entry_after(text, index, key, decimal_key(key)).0),
        0 <= entry_after(text, index, key, decimal_key(key)).1 <= entry_after(
            text,
            index,
            key,
            decimal_key(key),
        ).0.len(),
{
    let after = entry_after(text, index, key, decimal_key(key)).0;
    assert forall|i: int| 0 <= i < after.len() implies #[trigger] is_decimal_digit(after[i]) by {
        if decimal_key(key) {
            if i > index {
                assert(after[i] == text[i - 1]);
            } else if i < index {
                assert(after[i] == text[i]);
            }
        } else if key == Key::Backspace && index > 0 {
            if i >= index - 1 {
                assert(after[i] == text[i + 1]);
            } else {
                assert(after[i] == text[i]);
            }
        } else if key == Key::Delete && index < text.len() {
            if i >= index {
                assert(after[i] == text[i + 1]);
            } else {
                assert(after[i] == text[i]);
            }
        } else {
            assert(after[i] == text[i]);
        }
    }
}

/// Where the text cursor of the entry prompt is drawn: after a label of
/// `label` columns, on the second-to-last row.
pub open spec fn entry_cursor_position(index: int, label: int, window_size: WindowSize) -> Position {
    Position { x: (index + label) as u16, y: (window_size.rows - 2) as u16 }
}

impl Buffer {
    /// The state of the entry prompt after `key`: for editing keys the new
    /// text and cursor; for Enter, the jump to `target` (or the alert when it
    /// is past the end); any other key closes the prompt. `digit` tells
    /// whether the key is a digit the prompt accepts.
    pub open spec fn after_entry_key(
        &self,
        final_buffer: &Buffer,
        key: Key,
        digit: bool,
        target: int,
        label: int,
        window_size: WindowSize,
    ) -> bool {
        let max = self.max_index();
        let (text, index) = if edits_entry(key, digit) {
            entry_after(self.entry_text@, self.entry_cursor_index as int, key, digit)
        } else {
            (self.entry_text@, self.entry_cursor_index as int)
        };
        let partial_action = if edits_entry(key, digit) {
            self.partial_action
        } else {
            None
        };
        let cursor_position = if partial_action is Some {
            Some(entry_cursor_position(index, label, window_size))
        } else {
            None
        };
        &&& final_buffer.entry_text@ == text
        &&& final_buffer.entry_cursor_index == index
        &&& final_buffer.partial_action == partial_action
        &&& final_buffer.cursor_position == cursor_position
        &&& if !edits_entry(key, digit) && key == Key::Enter && target < self.contents@.len() {
            &&& *final_buffer == (Buffer {
                entry_text: final_buffer.entry_text,
                entry_cursor_index: final_buffer.entry_cursor_index,
                partial_action: final_buffer.partial_action,
                cursor_position: final_buffer.cursor_position,
                primary_cursor: Cursor::at_spec(target as usize),
                cursors: final_buffer.cursors,
                scroll_position: clamped_to_head(
                    self.scroll_position as int,
                    target,
                    max as int,
                    window_size,
                ) as usize,
                ..*self
            })
            &&& final_buffer.cursors@.len() == 0
        } else if !edits_entry(key, digit) && key == Key::Enter {
            *final_buffer == (Buffer {
                entry_text: final_buffer.entry_text,
                entry_cursor_index: final_buffer.entry_cursor_index,
                partial_action: final_buffer.partial_action,
                cursor_position: final_buffer.cursor_position,
                alert_message: Some(Alert::OffsetOutOfBounds),
                ..*self
            })
        } else {
            *final_buffer == (Buffer {
                entry_text: final_buffer.entry_text,
                entry_cursor_index: final_buffer.entry_cursor_index,
                partial_action: final_buffer.partial_action,
                cursor_position: final_buffer.cursor_position,
                ..*self
            })
        }
    }

    /// Edits the entry text or moves in it; returns whether the key did.
    fn edit_entry(&mut self, key: Key, digit: bool) -> (edited: bool)
        requires
            old(self).entry_cursor_index <= old(self).entry_text@.len() < usize::MAX,
            digit ==> key is Char,
        ensures
            edited == edits_entry(key, digit),
            edited ==> (final(self).entry_text@, final(self).entry_cursor_index as int) == entry_after(
                old(self).entry_text@,
                old(self).entry_cursor_index as int,
                key,
                digit,
            ),
            *final(self) == (Buffer {
                entry_text: final(self).entry_text,
                entry_cursor_index: final(self).entry_cursor_index,
                ..*old(self)
            }),
            !edited ==> final(self).entry_text@ == old(self).entry_text@ && final(self).entry_cursor_index
                == old(self).entry_cursor_index,
            final(self).entry_cursor_index <= final(self).entry_text@.len(),
            final(self).entry_text@.len() <= old(self).entry_text@.len() + 1,
    {
        let index = self.entry_cursor_index;
        if digit {
            if let Key::Char(character) = key {
                self.entry_text.insert(index, character);
                self.entry_cursor_index = index + 1;
            }
            return true;
        }
        match key {
            Key::Backspace => {
                if index > 0 {
                    self.entry_text.remove(index - 1);
                    self.entry_cursor_index = index - 1;
                }
                true
            },
            Key::Delete => {
                if index < self.entry_text.len() {
                    self.entry_text.remove(index);
                }
                true
            },
            Key::Left => {
                if index > 0 {
                    self.entry_cursor_index = index - 1;
                }
                true
            },
            Key::Right => {
                if index < self.entry_text.len() {
                    self.entry_cursor_index = index + 1;
                }
                true
            },
            _ => false,
        }
    }

    /// Jumps to `offset` with a single selection, or shows an alert when it
    /// is past the end; closes the prompt.
    fn enter_offset(&mut self, offset: usize, window_size: WindowSize)
        requires
            old(self).sizes_ok(window_size),
        ensures
            offset < old(self).contents@.len() ==> {
                &&& *final(self) == (Buffer {
                    primary_cursor: Cursor::at_spec(offset),
                    cursors: final(self).cursors,
                    scroll_position: clamped_to_head(
                        old(self).scroll_position as int,
                        offset as int,
                        old(self).max_index() as int,
                        window_size,
                    ) as usize,
                    partial_action: None,
                    ..*old(self)
                })
                &&& final(self).cursors@.len() == 0
            },
            offset >= old(self).contents@.len() ==> *final(self) == (Buffer {
                alert_message: Some(Alert::OffsetOutOfBounds),
                partial_action: None,
                ..*old(self)
            }),
            final(self).sizes_ok(window_size),
            old(self).wf(window_size) ==> final(self).wf(window_size),
    {
        if offset < self.contents.len() {
            self.primary_cursor = Cursor::at(offset);
            self.cursors.clear();
            proof {
                lemma_clamped_to_head_shows_head(
                    self.scroll_position as int,
                    offset as int,
                    self.max_index() as int,
                    window_size,
                );
            }
            self.clamp_screen_to_primary_cursor(window_size);
        } else {
            self.alert_message = Some(Alert::OffsetOutOfBounds);
        }
        self.partial_action = None;
    }

    /// The hexadecimal prompt can take `key`: its cursor lies in its text;
    /// Enter needs a non-empty text that spells a `usize`; and the column
    /// where the text cursor is drawn after an editing key must fit a
    /// terminal coordinate.
    pub open spec fn hex_entry_accepts(&self, key: Key, window_size: WindowSize) -> bool {
        &&& self.entry_cursor_index <= self.entry_text@.len() < usize::MAX
        &&& key == Key::Enter ==> self.entry_text@.len() > 0 && all_hex_digits(self.entry_text@)
            && hex_value(self.entry_text@) <= usize::MAX
        &&& edits_entry(key, hex_key(key) is Some) && self.partial_action is Some ==> 2 <= window_size.rows
            && entry_after(self.entry_text@, self.entry_cursor_index as int, key, hex_key(key) is Some).1 + 9
            <= 0xFFFF
    }

    /// The decimal prompt can take `key`, in the same way.
    pub open spec fn decimal_entry_accepts(&self, key: Key, window_size: WindowSize) -> bool {
        &&& self.entry_cursor_index <= self.entry_text@.len() < usize::MAX
        &&& key == Key::Enter ==> self.entry_text@.len() > 0 && all_decimal_digits(self.entry_text@)
            && decimal_value(self.entry_text@) <= usize::MAX
        &&& edits_entry(key, decimal_key(key)) && self.partial_action is Some ==> 2 <= window_size.rows
            && entry_after(self.entry_text@, self.entry_cursor_index as int, key, decimal_key(key)).1 + 7
            <= 0xFFFF
    }

    /// What `handle_goto_offset` leaves, given the buffer before it.
    pub open spec fn handle_goto_offset_effect(before: Buffer, after: Buffer, key: Key, window_size: WindowSize) -> bool {
        &&& (before.after_entry_key(
            &after,
            key,
            hex_key(key) is Some,
            hex_value(before.entry_text@) as int,
            9,
            window_size,
        ))
        &&& (after.sizes_ok(window_size))
        &&& (before.wf(window_size) ==> after.wf(window_size))
        &&& (after.entry_cursor_index <= after.entry_text@.len())
    }

    /// Handles a key in the prompt for a hexadecimal offset: hex digits are
    /// typed, Backspace, Delete, Left and Right edit, Enter jumps to the
    /// offset, any other key closes the prompt.
    pub fn handle_goto_offset(&mut self, key: Key, window_size: WindowSize)
        requires
            old(self).sizes_ok(window_size),
            old(self).hex_entry_accepts(key, window_size),
        ensures
            Self::handle_goto_offset_effect(*old(self), *final(self), key, window_size),
    {
        let digit = match key {
            Key::Char(c) => nybble_from_hex(c).is_some(),
            _ => false,
        };
        if !self.edit_entry(key, digit) {
            if key == Key::Enter {
                let entered_offset = parse_hex(&self.entry_text);
                self.enter_offset(entered_offset, window_size);
            } else {
                self.partial_action = None;
            }
        }
        self.cursor_position = if self.partial_action.is_some() {
            Some(Position { x: self.entry_cursor_index as u16 + 9, y: window_size.rows as u16 - 2 })
        } else {
            None
        };
    }

    /// What `handle_goto_decimal_offset` leaves, given the buffer before it.
    pub open spec fn handle_goto_decimal_offset_effect(before: Buffer, after: Buffer, key: Key, window_size: WindowSize) -> bool {
        &&& (before.after_entry_key(
            &after,
            key,
            decimal_key(key),
            decimal_value(before.entry_text@) as int,
            7,
            window_size,
        ))
        &&& (after.sizes_ok(window_size))
        &&& (before.wf(window_size) ==> after.wf(window_size))
        &&& (after.entry_cursor_index <= after.entry_text@.len())
    }

    /// Handles a key in the prompt for a decimal offset, like
    /// `handle_goto_offset` with decimal digits.
    pub fn handle_goto_decimal_offset(&mut self, key: Key, window_size: WindowSize)
        requires
            old(self).sizes_ok(window_size),
            old(self).decimal_entry_accepts(key, window_size),
        ensures
            Self::handle_goto_decimal_offset_effect(*old(self), *final(self), key, window_size),
    {
        let digit = match key {
            Key::Char(c) => '0' <= c && c <= '9',
            _ => false,
        };
        if !self.edit_entry(key, digit) {
            if key == Key::Enter {
                let entered_offset = parse_decimal(&self.entry_text);
                self.enter_offset(entered_offset, window_size);
            } else {
                self.partial_action = None;
            }
        }
        self.cursor_position = if self.partial_action.is_some() {
            Some(Position { x: self.entry_cursor_index as u16 + 7, y: window_size.rows as u16 - 2 })
        } else {
            None
        };
    }

    /// What `handle_replace` leaves, given the buffer before it.
    pub open spec fn handle_replace_effect(before: Buffer, after: Buffer, key: Key, window_size: WindowSize) -> bool {
        &&& (hex_key(key) is None ==> after == (Buffer {
            partial_action: None,
            partial_replace: None,
            ..before
        }))
        &&& (hex_key(key) matches Some(low) ==> (before.partial_replace is None ==> after == (Buffer {
            partial_replace: Some(low),
            ..before
        })))
        &&& (hex_key(key) matches Some(low) ==> before.partial_replace matches Some(high) ==> {
            &&& after.contents@ == edited(
                before.contents@,
                after.edit_history@.last(),
            )
            &&& after.edit_history@.last() matches EditAction::Replace { new_byte, .. }
                && new_byte == byte_of_nybbles(high, low)
            &&& after.edit_history@.last().primary() == before.primary_cursor
            &&& after.edit_history@.last().others() == before.cursors@
            &&& after.edit_history@.last().recorded_from(before.contents@)
            &&& after.edit_history@ == before.edit_history@.take(before.now()).push(
                after.edit_history@.last(),
            )
            &&& placed_after_edit(before, after.edit_history@.last(), after, window_size)
            &&& after.last_saved_at == match before.last_saved_at {
                Some(saved) => if saved <= before.now() {
                    Some(saved)
                } else {
                    None
                },
                None => None,
            }
            &&& after == (Buffer {
                contents: after.contents,
                primary_cursor: after.primary_cursor,
                cursors: after.cursors,
                scroll_position: after.scroll_position,
                edit_history: after.edit_history,
                time_traveling: None,
                last_saved_at: after.last_saved_at,
                partial_action: None,
                partial_replace: None,
                ..before
            })
        })
        &&& (after.history_consistent())
        &&& (after.sizes_ok(window_size))
        &&& (before.scroll_position % 16 == 0 ==> after.scroll_position % 16 == 0)
        &&& (before.wf(window_size) ==> after.wf(window_size))
    }

    /// Handles a key while waiting for the hex digits of a replacement byte:
    /// the first digit is kept, the second replaces every selected byte with
    /// the byte they spell; any other key cancels.
    pub fn handle_replace(&mut self, key: Key, window_size: WindowSize)
        requires
            old(self).sizes_ok(window_size),
            old(self).history_consistent(),
            hex_key(key) is Some && old(self).partial_replace is Some ==> old(self).contents@.len() > 0,
        ensures
            Self::handle_replace_effect(*old(self), *final(self), key, window_size),
    {
        let digit = match key {
            Key::Char(c) => nybble_from_hex(c),
            _ => None,
        };
        match digit {
            Some(nybble) => {
                match self.partial_replace {
                    Some(partial_replace) => {
                        let ghost before = *self;
                        self.partial_replace = None;
                        proof {
                            lemma_history_consistent_keeps(&before, self);
                        }
                        let edit = self.recorded_edit(Some(join_nybbles(partial_replace, nybble)));
                        self.execute_and_add(edit, window_size);
                        let ghost before = *self;
                        self.partial_action = None;
                        proof {
                            lemma_history_consistent_keeps(&before, self);
                        }
                    },
                    None => {
                        let ghost before = *self;
                        self.partial_replace = Some(nybble);
                        proof {
                            lemma_history_consistent_keeps(&before, self);
                        }
                    },
                }
            },
            None => {
                let ghost before = *self;
                self.partial_action = None;
                self.partial_replace = None;
                proof {
                    lemma_history_consistent_keeps(&before, self);
                }
            },
        }
    }
}

/// The registers all spell numbers (little-endian) that fit in a `u64`.
pub open spec fn counts_fit(primary_register: Seq<u8>, other_registers: Seq<Seq<u8>>) -> bool {
    &&& little_endian_value(primary_register) < u64_limit()
    &&& forall|k: int| 0 <= k < other_registers.len() ==> little_endian_value(#[trigger] other_registers[k]) < u64_limit()
}

/// How often a repeated command runs for each selection: the number the
/// primary register spells, and the one each other register spells, in
/// order. When one of them does not fit in a `u64` the repeat is refused.
pub fn repeat_counts(primary_register: &[u8], other_registers: &[Vec<u8>]) -> (counts: Result<(u64, Vec<u64>), Alert>)
    ensures
        counts is Ok <==> counts_fit(primary_register@, other_registers@.map_values(|register: Vec<u8>| register@)),
        counts matches Err(alert) ==> alert == Alert::RepeatCountTooLarge,
        counts matches Ok((primary, others)) ==> {
            &&& primary == little_endian_value(primary_register@)
            &&& others@.len() == other_registers@.len()
            &&& forall|k: int| 0 <= k < others@.len() ==> others@[k] == little_endian_value(#[trigger] other_registers@[k]@)
        },
{
    let ghost registers = other_registers@.map_values(|register: Vec<u8>| register@);
    let primary = match bytes_to_nat(primary_register) {
        Some(count) => count,
        None => {
            return Err(Alert::RepeatCountTooLarge);
        },
    };
    let mut others: Vec<u64> = Vec::new();
    let mut index: usize = 0;
    while index < other_registers.len()
        invariant
            index <= other_registers@.len(),
            registers == other_registers@.map_values(|register: Vec<u8>| register@),
            others@.len() == index,
            forall|k: int| 0 <= k < index ==> others@[k] == little_endian_value(#[trigger] other_registers@[k]@),
            forall|k: int| 0 <= k < index ==> little_endian_value(#[trigger] registers[k]) < u64_limit(),
        decreases other_registers@.len() - index,
    {
        match bytes_to_nat(other_registers[index].as_slice()) {
            Some(count) => {
                others.push(count);
            },
            None => {
                assert(little_endian_value(registers[index as int]) >= u64_limit());
                return Err(Alert::RepeatCountTooLarge);
            },
        }
        index = index + 1;
    }
    Ok((primary, others))
}

/// What the command bound to a key does to `before`: it closes the popups
/// and runs (an editor command runs later, in the editor); then the
/// inspection is switched off unless the command inspects, and the first
/// key of a two-key command, if one was pending and the command did not
/// replace it, is dropped.
pub open spec fn bound_effect(before: Buffer, after: Buffer, binding: Option<Binding>, window_size: WindowSize) -> bool {
    match binding {
        None => after == (Buffer { partial_action: None, ..before }),
        Some(bound) => exists|closed: Buffer, ran: Buffer|
            #![trigger ran_binding(bound, closed, ran, window_size)]
            {
                &&& closed == (Buffer { popups: closed.popups, ..before })
                &&& closed.popups@.len() == 0
                &&& ran_binding(bound, closed, ran, window_size)
                &&& after == (Buffer {
                    inspection_status: if bound.is_inspection() {
                        ran.inspection_status
                    } else {
                        None
                    },
                    partial_action: if ran.partial_action == before.partial_action {
                        None
                    } else {
                        ran.partial_action
                    },
                    ..ran
                })
            },
    }
}

/// What running `bound` on `before` leaves: an editor command leaves the
/// buffer as it is, a buffer command acts as `Buffer::execute`, and the
/// prompts open with an empty text.
pub open spec fn ran_binding(bound: Binding, before: Buffer, after: Buffer, window_size: WindowSize) -> bool {
    match bound {
        Binding::App(_) => after == before,
        Binding::Buffer(action) => executed(action, before, after, window_size),
        Binding::GotoOffset => {
            &&& after.entry_text@.len() == 0
            &&& after == (Buffer {
                partial_action: Some(PartialAction::GotoOffset),
                entry_text: after.entry_text,
                entry_cursor_index: 0,
                ..before
            })
        },
        Binding::GotoDecimalOffset => {
            &&& after.entry_text@.len() == 0
            &&& after == (Buffer {
                partial_action: Some(PartialAction::GotoDecimalOffset),
                entry_text: after.entry_text,
                entry_cursor_index: 0,
                ..before
            })
        },
    }
}

/// What a key press does to `before`, given what the key is bound to (in
/// the buffer's mode, after its pending first key): the alert goes, then a
/// pending replacement, repeat or offset prompt takes the key, or else the
/// bound command runs. The result is the editor command to run, if any,
/// and whether the screen must be drawn again.
pub open spec fn key_handled(
    before: Buffer,
    after: Buffer,
    key: Key,
    binding: Option<Binding>,
    window_size: WindowSize,
    result: (Option<AppAction>, bool),
) -> bool {
    let cleared = Buffer { alert_message: None, ..before };
    match before.partial_action {
        Some(PartialAction::Replace) => Buffer::handle_replace_effect(cleared, after, key, window_size) && result == (
            None::<AppAction>,
            true,
        ),
        Some(PartialAction::Repeat) => after == (Buffer {
            partial_action: None,
            alert_message: if binding is Some {
                Some(Alert::OnlyCursorActionsRepeatable)
            } else {
                None
            },
            ..before
        }) && result == (None::<AppAction>, true),
        Some(PartialAction::GotoOffset) => Buffer::handle_goto_offset_effect(cleared, after, key, window_size)
            && result == (None::<AppAction>, true),
        Some(PartialAction::GotoDecimalOffset) => Buffer::handle_goto_decimal_offset_effect(
            cleared,
            after,
            key,
            window_size,
        ) && result == (None::<AppAction>, true),
        _ => {
            &&& bound_effect(cleared, after, binding, window_size)
            &&& result.0 == match binding {
                Some(Binding::App(action)) => Some(action),
                _ => None,
            }
            &&& result.1 == (before.alert_message is Some || before.partial_action is Some || binding is Some)
        },
    }
}

/// The bound command is one after which the view may no longer show the
/// primary head (see `exempt_from_view`).
pub open spec fn binding_exempt_from_view(binding: Option<Binding>, before: Buffer) -> bool {
    binding matches Some(Binding::Buffer(action)) && exempt_from_view(action, before)
}

/// A key after which the view may no longer show the primary head: one
/// that runs such a command, outside the replacement, repeat and offset
/// prompts.
pub open spec fn key_exempt_from_view(before: Buffer, binding: Option<Binding>) -> bool {
    &&& before.partial_action != Some(PartialAction::Replace)
    &&& before.partial_action != Some(PartialAction::Repeat)
    &&& before.partial_action != Some(PartialAction::GotoOffset)
    &&& before.partial_action != Some(PartialAction::GotoDecimalOffset)
    &&& binding_exempt_from_view(binding, before)
}

/// Whether the two pending first keys are the same.
fn same_partial(a: Option<PartialAction>, b: Option<PartialAction>) -> (same: bool)
    ensures
        same == (a == b),
{
    match (a, b) {
        (None, None) => true,
        (Some(a), Some(b)) => a == b,
        _ => false,
    }
}

impl Buffer {
    /// Handles a key press, given what the key is bound to in the buffer's
    /// mode after its pending first key; see `key_handled`.
    pub fn handle_key(&mut self, key: Key, binding: Option<Binding>, window_size: WindowSize) -> (result: (
        Option<AppAction>,
        bool,
    ))
        requires
            old(self).sizes_ok(window_size),
            old(self).history_consistent(),
            old(self).partial_action == Some(PartialAction::Replace) ==> (hex_key(key) is Some && old(
                self,
            ).partial_replace is Some ==> old(self).contents@.len() > 0),
            old(self).partial_action == Some(PartialAction::GotoOffset) ==> old(self).hex_entry_accepts(
                key,
                window_size,
            ),
            old(self).partial_action == Some(PartialAction::GotoDecimalOffset) ==> old(
                self,
            ).decimal_entry_accepts(key, window_size),
            binding matches Some(Binding::Buffer(action)) ==> (reads_selection(action, *old(self))
                ==> old(self).contents@.len() > 0),
        ensures
            key_handled(*old(self), *final(self), key, binding, window_size, result),
            old(self).wf(window_size) && !key_exempt_from_view(*old(self), binding) ==> final(self).wf(
                window_size,
            ),
    {
        let alert_was_shown = self.alert_message.is_some();
        let ghost before = *self;
        self.alert_message = None;
        proof {
            lemma_history_consistent_keeps(&before, self);
        }
        match self.partial_action {
            Some(PartialAction::Replace) => {
                self.handle_replace(key, window_size);
                (None, true)
            },
            Some(PartialAction::Repeat) => {
                self.handle_repeat(binding);
                (None, true)
            },
            Some(PartialAction::GotoOffset) => {
                self.handle_goto_offset(key, window_size);
                (None, true)
            },
            Some(PartialAction::GotoDecimalOffset) => {
                self.handle_goto_decimal_offset(key, window_size);
                (None, true)
            },
            _ => {
                let (app_action, redraw) = self.handle_other_modes(binding, window_size);
                (app_action, alert_was_shown || redraw)
            },
        }
    }

    /// The second key of a repeat: only cursor movements can be repeated,
    /// and this crate has no cursor movement commands, so a bound key is
    /// refused with an alert.
    fn handle_repeat(&mut self, binding: Option<Binding>)
        ensures
            *final(self) == (Buffer {
                partial_action: None,
                alert_message: if binding is Some {
                    Some(Alert::OnlyCursorActionsRepeatable)
                } else {
                    old(self).alert_message
                },
                ..*old(self)
            }),
    {
        self.partial_action = None;
        if binding.is_some() {
            self.alert_message = Some(Alert::OnlyCursorActionsRepeatable);
        }
    }

    /// Runs the command bound to a key outside the prompts; see
    /// `bound_effect`.
    fn handle_other_modes(&mut self, binding: Option<Binding>, window_size: WindowSize) -> (result: (
        Option<AppAction>,
        bool,
    ))
        requires
            old(self).sizes_ok(window_size),
            old(self).history_consistent(),
            binding matches Some(Binding::Buffer(action)) ==> (reads_selection(action, *old(self))
                ==> old(self).contents@.len() > 0),
        ensures
            bound_effect(*old(self), *final(self), binding, window_size),
            result.0 == match binding {
                Some(Binding::App(action)) => Some(action),
                _ => None,
            },
            result.1 == (old(self).partial_action is Some || binding is Some),
            old(self).wf(window_size) && !binding_exempt_from_view(binding, *old(self)) ==> final(self).wf(
                window_size,
            ),
    {
        let initial_partial_action = self.partial_action;
        let mut should_redraw = initial_partial_action.is_some();
        let mut result = None;
        if let Some(bound) = binding {
            should_redraw = true;
            let ghost before = *self;
            self.popups.clear();
            let ghost closed = *self;
            proof {
                lemma_history_consistent_keeps(&before, self);
            }
            match bound {
                Binding::App(action) => {
                    result = Some(action);
                },
                Binding::Buffer(action) => {
                    self.execute(action, window_size);
                },
                Binding::GotoOffset => {
                    self.partial_action = Some(PartialAction::GotoOffset);
                    self.entry_text = Vec::new();
                    self.entry_cursor_index = 0;
                },
                Binding::GotoDecimalOffset => {
                    self.partial_action = Some(PartialAction::GotoDecimalOffset);
                    self.entry_text = Vec::new();
                    self.entry_cursor_index = 0;
                },
            }
            let ghost ran = *self;
            assert(ran_binding(bound, closed, ran, window_size));
            let inspects = matches!(
                bound,
                Binding::Buffer(BufferAction::InspectSelection) | Binding::Buffer(BufferAction::InspectSelectionColor)
            );
            if !inspects {
                self.inspection_status = None;
            }
        }
        if same_partial(self.partial_action, initial_partial_action) {
            self.partial_action = None;
        }
        (result, should_redraw)
    }
}

} // verus!
