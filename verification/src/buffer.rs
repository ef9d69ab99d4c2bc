use vstd::prelude::*;
use std::collections::HashSet;
use std::path::PathBuf;
use crate::characters::chars_of;
use crate::cursor::{Cursor, combined, ranges_overlap, lemma_combined_covers_union, lemma_combined_within};
use crate::edit_action::EditAction;
use crate::popup::Popup;
use crate::utilities::IsOverlapping;

pub mod actions;
pub mod edits;
pub mod execute;
pub mod inspect;
pub mod keys;
pub mod marks;
pub mod screen;

verus! {

#[verifier::external_type_specification]
#[verifier::external_body]
pub struct ExPathBuf(PathBuf);

#[derive(Clone, Copy, PartialEq, Eq, Structural, Debug, Hash)]
pub enum Mode {
    Normal,
    Select,
}

/// The last component of a path as text: what `Path::file_name` gives,
/// when there is one and `OsStr::to_str` finds it valid UTF-8.
pub uninterp spec fn path_file_name(file_path: PathBuf) -> Option<Seq<char>>;

/// `Path::file_name`, then `OsStr::to_str`, then `to_owned`: the path's last
/// component as text. Its value is named by `path_file_name`, a function of
/// the path alone; nothing more is stated, as Verus does not see inside a
/// path.
#[verifier::external_body]
fn file_name_of(file_path: &PathBuf) -> (name: Option<String>)
    ensures
        name is Some <==> path_file_name(*file_path) is Some,
        name matches Some(name) ==> path_file_name(*file_path) == Some(name@),
{
    file_path.file_name().and_then(|n| n.to_str()).map(|n| n.to_owned())
}

/// The first key of a two-key command, waiting for the second.
#[derive(Clone, Copy, PartialEq, Eq, Structural, Debug, Hash)]
pub enum PartialAction {
    Goto,
    View,
    Replace,
    Space,
    Repeat,
    Till,
    GotoOffset,
    GotoDecimalOffset,
}

#[derive(Clone, Copy, PartialEq, Eq, Structural, Debug)]
pub enum InspectionStatus {
    Normal,
    ColorsOnly,
}

/// A message shown in the status line. All but `Yanked` report errors.
#[derive(Clone, Copy, PartialEq, Eq, Structural, Debug)]
pub enum Alert {
    /// The number of selections whose bytes were copied.
    Yanked(usize),
    UnsavedChanges,
    RepeatCountTooLarge,
    OnlyCursorActionsRepeatable,
    OffsetOutOfBounds,
    /// Not every selection's length is a multiple of the given size.
    NotAllMultipleOf(usize),
    SelectionNotValidOffset,
    NotAllSelectionsValidOffsets,
}

/// A cell of the terminal.
#[derive(Clone, Copy, PartialEq, Eq, Structural, Debug)]
pub struct Position {
    pub x: u16,
    pub y: u16,
}

impl PartialAction {
    /// The partial action that a configuration file names `value`.
    pub fn try_from(value: &str) -> (result: Result<PartialAction, ()>)
        ensures
            value@ == seq!['g', 'o', 't', 'o'] <==> result == Ok::<PartialAction, ()>(PartialAction::Goto),
            value@ == seq!['v', 'i', 'e', 'w'] <==> result == Ok::<PartialAction, ()>(PartialAction::View),
            value@ == seq!['r', 'e', 'p', 'l', 'a', 'c', 'e'] <==> result == Ok::<PartialAction, ()>(
                PartialAction::Replace,
            ),
            value@ == seq!['s', 'p', 'a', 'c', 'e'] <==> result == Ok::<PartialAction, ()>(PartialAction::Space),
            value@ == seq!['r', 'e', 'p', 'e', 'a', 't'] <==> result == Ok::<PartialAction, ()>(
                PartialAction::Repeat,
            ),
            value@ == seq!['t', 'i', 'l', 'l'] <==> result == Ok::<PartialAction, ()>(PartialAction::Till),
            result != Ok::<PartialAction, ()>(PartialAction::GotoOffset),
            result != Ok::<PartialAction, ()>(PartialAction::GotoDecimalOffset),
    {
        let chars = chars_of(value);
        if chars_equal(&chars, &['g', 'o', 't', 'o']) {
            Ok(PartialAction::Goto)
        } else if chars_equal(&chars, &['v', 'i', 'e', 'w']) {
            Ok(PartialAction::View)
        } else if chars_equal(&chars, &['r', 'e', 'p', 'l', 'a', 'c', 'e']) {
            Ok(PartialAction::Replace)
        } else if chars_equal(&chars, &['s', 'p', 'a', 'c', 'e']) {
            Ok(PartialAction::Space)
        } else if chars_equal(&chars, &['r', 'e', 'p', 'e', 'a', 't']) {
            Ok(PartialAction::Repeat)
        } else if chars_equal(&chars, &['t', 'i', 'l', 'l']) {
            Ok(PartialAction::Till)
        } else {
            Err(())
        }
    }
}

fn chars_equal(a: &Vec<char>, b: &[char]) -> (equal: bool)
    ensures
        equal == (a@ == b@),
{
    if a.len() != b.len() {
        return false;
    }
    let mut index: usize = 0;
    while index < a.len()
        invariant
            a@.len() == b@.len(),
            index <= a@.len(),
            forall|i: int| 0 <= i < index ==> a@[i] == b@[i],
        decreases a.len() - index,
    {
        if a[index] != b[index] {
            return false;
        }
        index = index + 1;
    }
    assert(a@ =~= b@);
    true
}

} // verus!

verus! {

/// An open file: its bytes, the selections on them and the editing state.
pub struct Buffer {
    pub file_name: String,
    pub file_path: PathBuf,
    pub contents: Vec<u8>,
    /// The offset of the first byte on screen.
    pub scroll_position: usize,
    pub primary_cursor: Cursor,
    /// The other selections, kept sorted by head.
    pub cursors: Vec<Cursor>,
    pub marks: HashSet<usize>,
    pub mode: Mode,
    pub partial_action: Option<PartialAction>,
    pub partial_replace: Option<u8>,
    pub alert_message: Option<Alert>,
    pub popups: Vec<Popup>,
    /// Text typed for `go`, `/` and the like.
    pub entry_text: Vec<char>,
    pub entry_cursor_index: usize,
    /// Where on the screen the text cursor is drawn.
    pub cursor_position: Option<Position>,
    pub inspection_status: Option<InspectionStatus>,
    pub edit_history: Vec<EditAction>,
    /// While undoing: the index just after the latest edit still applied.
    pub time_traveling: Option<usize>,
    /// The index just after the last edit that was saved; `None` once that
    /// point is no longer in the history.
    pub last_saved_at: Option<usize>,
    pub logs: Vec<String>,
}

/// Whether `offset` is selected by the primary selection or any other one.
pub open spec fn selected(primary: Cursor, cursors: Seq<Cursor>, offset: int) -> bool {
    primary.covers(offset) || exists|k: int| 0 <= k < cursors.len() && #[trigger] cursors[k].covers(offset)
}

/// The largest valid offset into `contents`, or 0 when it is empty.
pub open spec fn max_index_of(contents: Seq<u8>) -> usize {
    if contents.len() == 0 {
        0
    } else {
        (contents.len() - 1) as usize
    }
}

/// Every selection in the list lies in `0..=max`.
pub open spec fn all_within(cursors: Seq<Cursor>, max: usize) -> bool {
    forall|k: int| 0 <= k < cursors.len() ==> (#[trigger] cursors[k]).within(max)
}

/// The result of merging overlapping selections, starting at position
/// `index` of `cursors`: a selection that overlaps the next one swallows it;
/// the primary selection swallows one that it overlaps; otherwise the scan
/// moves on.
pub open spec fn merged(primary: Cursor, cursors: Seq<Cursor>, index: int) -> (Cursor, Seq<Cursor>)
    decreases cursors.len() - index,
{
    if index < 0 || index >= cursors.len() {
        (primary, cursors)
    } else if index < cursors.len() - 1 && ranges_overlap(cursors[index], cursors[index + 1]) {
        merged(
            primary,
            cursors.update(index, combined(cursors[index], cursors[index + 1])).remove(index + 1),
            index,
        )
    } else if ranges_overlap(primary, cursors[index]) {
        merged(combined(primary, cursors[index]), cursors.remove(index), index)
    } else {
        merged(primary, cursors, index + 1)
    }
}

/// Merging overlapping selections leaves exactly the same offsets selected,
/// and keeps every selection inside `0..=max`.
pub proof fn lemma_merged_keeps_selection(primary: Cursor, cursors: Seq<Cursor>, index: int, max: usize)
    requires
        0 <= index,
    ensures
        forall|offset: int|
            selected(primary, cursors, offset) <==> selected(
                #[trigger] merged(primary, cursors, index).0,
                merged(primary, cursors, index).1,
                offset,
            ),
        primary.within(max) && all_within(cursors, max) ==> merged(primary, cursors, index).0.within(max)
            && all_within(merged(primary, cursors, index).1, max),
    decreases cursors.len() - index,
{
    if index < 0 || index >= cursors.len() {
    } else if index < cursors.len() - 1 && ranges_overlap(cursors[index], cursors[index + 1]) {
        let next = cursors.update(index, combined(cursors[index], cursors[index + 1])).remove(index + 1);
        lemma_merged_keeps_selection(primary, next, index, max);
        assert forall|offset: int| selected(primary, cursors, offset) <==> selected(primary, next, offset) by {
            lemma_combined_covers_union(cursors[index], cursors[index + 1], offset);
            if selected(primary, cursors, offset) && !primary.covers(offset) {
                let k = choose|k: int| 0 <= k < cursors.len() && #[trigger] cursors[k].covers(offset);
                if k < index {
                    assert(next[k] == cursors[k]);
                } else if k == index || k == index + 1 {
                    assert(next[index].covers(offset));
                } else {
                    assert(next[k - 1] == cursors[k]);
                }
            }
            if selected(primary, next, offset) && !primary.covers(offset) {
                let k = choose|k: int| 0 <= k < next.len() && #[trigger] next[k].covers(offset);
                if k < index {
                    assert(cursors[k] == next[k]);
                } else if k == index {
                    assert(cursors[index].covers(offset) || cursors[index + 1].covers(offset));
                } else {
                    assert(cursors[k + 1] == next[k]);
                }
            }
        }
        if primary.within(max) && all_within(cursors, max) {
            lemma_combined_within(cursors[index], cursors[index + 1], max);
            assert(all_within(next, max)) by {
                assert forall|k: int| 0 <= k < next.len() implies (#[trigger] next[k]).within(max) by {
                    if k > index {
                        assert(next[k] == cursors[k + 1]);
                    }
                }
            }
        }
    } else if ranges_overlap(primary, cursors[index]) {
        let next_primary = combined(primary, cursors[index]);
        let next = cursors.remove(index);
        lemma_merged_keeps_selection(next_primary, next, index, max);
        assert forall|offset: int|
            selected(primary, cursors, offset) <==> selected(next_primary, next, offset) by {
            lemma_combined_covers_union(primary, cursors[index], offset);
            if selected(primary, cursors, offset) && !primary.covers(offset) {
                let k = choose|k: int| 0 <= k < cursors.len() && #[trigger] cursors[k].covers(offset);
                if k < index {
                    assert(next[k] == cursors[k]);
                } else if k > index {
                    assert(next[k - 1] == cursors[k]);
                }
            }
            if selected(next_primary, next, offset) && !next_primary.covers(offset) {
                let k = choose|k: int| 0 <= k < next.len() && #[trigger] next[k].covers(offset);
                if k < index {
                    assert(cursors[k] == next[k]);
                } else {
                    assert(cursors[k + 1] == next[k]);
                }
            }
        }
        if primary.within(max) && all_within(cursors, max) {
            lemma_combined_within(primary, cursors[index], max);
            assert(all_within(next, max)) by {
                assert forall|k: int| 0 <= k < next.len() implies (#[trigger] next[k]).within(max) by {
                    if k >= index {
                        assert(next[k] == cursors[k + 1]);
                    }
                }
            }
        }
    } else {
        lemma_merged_keeps_selection(primary, cursors, index + 1, max);
    }
}

/// Everything but the scroll position and the selections is the same.
pub open spec fn same_except_view(a: &Buffer, b: &Buffer) -> bool {
    &&& a.file_name == b.file_name
    &&& a.file_path == b.file_path
    &&& a.contents@ == b.contents@
    &&& a.marks@ == b.marks@
    &&& a.mode == b.mode
    &&& a.partial_action == b.partial_action
    &&& a.partial_replace == b.partial_replace
    &&& a.alert_message == b.alert_message
    &&& a.popups@ == b.popups@
    &&& a.entry_text@ == b.entry_text@
    &&& a.entry_cursor_index == b.entry_cursor_index
    &&& a.cursor_position == b.cursor_position
    &&& a.inspection_status == b.inspection_status
    &&& a.edit_history@ == b.edit_history@
    &&& a.time_traveling == b.time_traveling
    &&& a.last_saved_at == b.last_saved_at
    &&& a.logs@ == b.logs@
}

impl Buffer {
    /// The largest valid offset, or 0 when the buffer is empty.
    pub open spec fn max_index(&self) -> usize {
        max_index_of(self.contents@)
    }

    /// Every selection lies inside the contents (at 0 when they are empty).
    pub open spec fn cursors_in_bounds(&self) -> bool {
        &&& self.primary_cursor.within(self.max_index())
        &&& all_within(self.cursors@, self.max_index())
    }

    pub open spec fn saved(&self) -> bool {
        match self.last_saved_at {
            Some(saved_at) => match self.time_traveling {
                Some(now) => saved_at == now,
                None => saved_at == self.edit_history@.len(),
            },
            None => false,
        }
    }

    /// What a freshly opened buffer holds: `contents` shown from the start,
    /// one byte selected at offset 0, nothing edited, everything saved.
    pub open spec fn fresh(buffer: Buffer, file_path: PathBuf, file_name: Seq<char>, contents: Seq<u8>) -> bool {
        &&& buffer.file_name@ == file_name
        &&& buffer.file_path == file_path
        &&& buffer.contents@ == contents
        &&& buffer.scroll_position == 0
        &&& buffer.primary_cursor == Cursor::at_spec(0)
        &&& buffer.cursors@.len() == 0
        &&& buffer.marks@.is_empty()
        &&& buffer.mode == Mode::Normal
        &&& buffer.partial_action is None
        &&& buffer.partial_replace is None
        &&& buffer.alert_message is None
        &&& buffer.popups@.len() == 0
        &&& buffer.entry_text@.len() == 0
        &&& buffer.entry_cursor_index == 0
        &&& buffer.cursor_position is None
        &&& buffer.inspection_status is None
        &&& buffer.edit_history@.len() == 0
        &&& buffer.time_traveling is None
        &&& buffer.last_saved_at == Some(0usize)
        &&& buffer.logs@.len() == 0
        &&& buffer.cursors_in_bounds()
        &&& buffer.saved()
        &&& contents.len() <= isize::MAX ==> buffer.history_consistent()
    }

    /// A buffer showing `contents` from the start, one byte selected at
    /// offset 0, nothing edited.
    pub fn new(file_path: PathBuf, file_name: String, contents: Vec<u8>) -> (buffer: Buffer)
        ensures
            Self::fresh(buffer, file_path, file_name@, contents@),
    {
        let buffer = Buffer {
            file_name,
            file_path,
            contents,
            scroll_position: 0,
            primary_cursor: Cursor::at(0),
            cursors: Vec::new(),
            marks: HashSet::new(),
            mode: Mode::Normal,
            partial_action: None,
            partial_replace: None,
            alert_message: None,
            popups: Vec::new(),
            entry_text: Vec::new(),
            entry_cursor_index: 0,
            cursor_position: None,
            inspection_status: None,
            edit_history: Vec::new(),
            time_traveling: None,
            last_saved_at: Some(0),
            logs: Vec::new(),
        };
        proof {
            if buffer.contents@.len() <= isize::MAX {
                assert(buffer.snapshots_fit(seq![buffer.contents@]));
            }
        }
        buffer
    }

    /// A buffer for the file at `file_path` holding `contents`, named after
    /// the path's last component; none when the path has no last component
    /// or it is not valid UTF-8.
    pub fn from_path(file_path: PathBuf, contents: Vec<u8>) -> (buffer: Option<Buffer>)
        ensures
            buffer is None <==> path_file_name(file_path) is None,
            buffer matches Some(buffer) ==> Self::fresh(
                buffer,
                file_path,
                path_file_name(file_path).unwrap(),
                contents@,
            ),
    {
        match file_name_of(&file_path) {
            Some(file_name) => Some(Buffer::new(file_path, file_name, contents)),
            None => None,
        }
    }

    pub fn has_unsaved_changes(&self) -> (unsaved: bool)
        ensures
            unsaved == !self.saved(),
    {
        !self.all_changes_saved()
    }

    /// Whether the contents are those last saved: the history position now
    /// is the one recorded at the last save.
    pub fn all_changes_saved(&self) -> (saved: bool)
        ensures
            saved == self.saved(),
    {
        match self.last_saved_at {
            Some(last_saved_at) => match self.time_traveling {
                Some(time_traveling) => last_saved_at == time_traveling,
                None => last_saved_at == self.edit_history.len(),
            },
            None => false,
        }
    }

    /// The largest valid offset, or 0 when the buffer is empty.
    pub fn max_contents_index(&self) -> (max: usize)
        ensures
            max == self.max_index(),
    {
        self.contents.len().saturating_sub(1)
    }

    /// Merges selections that overlap: each selection swallows the ones
    /// after it that it overlaps, and the primary selection swallows every
    /// other one that it overlaps.
    pub fn combine_cursors_if_overlapping(&mut self)
        ensures
            (final(self).primary_cursor, final(self).cursors@) == merged(
                old(self).primary_cursor,
                old(self).cursors@,
                0,
            ),
            *final(self) == (Buffer {
                primary_cursor: final(self).primary_cursor,
                cursors: final(self).cursors,
                ..*old(self)
            }),
            forall|offset: int|
                selected(old(self).primary_cursor, old(self).cursors@, offset) <==> selected(
                    final(self).primary_cursor,
                    final(self).cursors@,
                    offset,
                ),
            old(self).cursors_in_bounds() ==> final(self).cursors_in_bounds(),
    {
        proof {
            lemma_merged_keeps_selection(self.primary_cursor, self.cursors@, 0, self.max_index());
        }
        let mut index: usize = 0;
        let ghost goal = merged(self.primary_cursor, self.cursors@, 0);
        while !self.cursors.is_empty() && index < self.cursors.len()
            invariant
                merged(self.primary_cursor, self.cursors@, index as int) == goal,
                *self == (Buffer {
                    primary_cursor: self.primary_cursor,
                    cursors: self.cursors,
                    ..*old(self)
                }),
            decreases self.cursors@.len() - index,
        {
            let ghost length_before = self.cursors@.len();
            while index < self.cursors.len() - 1 && self.cursors[index].range().is_overlapping(
                &self.cursors[index + 1].range(),
            )
                invariant
                    index < self.cursors@.len() <= length_before,
                    merged(self.primary_cursor, self.cursors@, index as int) == goal,
                    *self == (Buffer {
                        primary_cursor: self.primary_cursor,
                        cursors: self.cursors,
                        ..*old(self)
                    }),
                decreases self.cursors@.len(),
            {
                let next_cursor = self.cursors[index + 1];
                let mut current = self.cursors[index];
                current.combine_with(next_cursor);
                self.cursors.set(index, current);
                self.cursors.remove(index + 1);
            }
            if self.primary_cursor.range().is_overlapping(&self.cursors[index].range()) {
                let other = self.cursors[index];
                self.primary_cursor.combine_with(other);
                self.cursors.remove(index);
            } else {
                index = index + 1;
            }
        }
    }
}

} // verus!
