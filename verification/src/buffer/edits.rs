use vstd::prelude::*;
use crate::buffer::{Buffer, Mode, all_within, max_index_of, merged, selected};
use crate::buffer::screen::{
    clamped_to_contents, clamped_to_head, lemma_clamped_to_head_shows_head,
    lemma_clamped_within_contents, lemma_line_floor,
};
use crate::sorting::{keeps_order_of_equal_heads, lemma_same_multiset, sort_cursors_by_head, sorted_by_head};
use crate::window_size::WindowSize;
use crate::cursor::{Cursor, min_of};
use crate::edit_action::EditAction;

verus! {

/// The bytes among the first `count` of `contents` that are not selected.
pub open spec fn kept(contents: Seq<u8>, primary: Cursor, cursors: Seq<Cursor>, count: int) -> Seq<u8>
    decreases count,
{
    if count <= 0 {
        Seq::empty()
    } else {
        let rest = kept(contents, primary, cursors, count - 1);
        if selected(primary, cursors, count - 1) {
            rest
        } else {
            rest.push(contents[count - 1])
        }
    }
}

/// The index of the first selection of `cursors[from..]` that covers
/// `offset`.
pub open spec fn first_cover(cursors: Seq<Cursor>, offset: int, from: int) -> Option<int>
    decreases cursors.len() - from,
{
    if from < 0 || from >= cursors.len() {
        None
    } else if cursors[from].covers(offset) {
        Some(from)
    } else {
        first_cover(cursors, offset, from + 1)
    }
}

/// The byte that the edit recorded at `offset`: from the primary selection's
/// data if it covers the offset, else from the first selection covering it.
pub open spec fn recorded_byte(edit: EditAction, offset: int) -> u8 {
    if edit.primary().covers(offset) {
        edit.primary_data()[offset - edit.primary().lower()]
    } else {
        match first_cover(edit.others(), offset, 0) {
            Some(k) => edit.other_data()[k][offset - edit.others()[k].lower()],
            None => 0,
        }
    }
}

/// Rebuilding the contents before a deletion from `current` (what is left)
/// and the recorded bytes: from offset `offset` on, with `current[next..]`
/// still to place, selected offsets take recorded bytes and the others take
/// the remaining bytes in order.
pub open spec fn reinserted(current: Seq<u8>, edit: EditAction, offset: int, next: int) -> Seq<u8>
    decreases current.len() - next, usize::MAX + 1 - offset,
{
    if next < 0 || offset < 0 {
        Seq::empty()
    } else if selected(edit.primary(), edit.others(), offset) {
        proof {
            lemma_selected_fits(edit.primary(), edit.others(), offset);
        }
        seq![recorded_byte(edit, offset)] + reinserted(current, edit, offset + 1, next)
    } else if next < current.len() {
        seq![current[next]] + reinserted(current, edit, offset + 1, next + 1)
    } else {
        Seq::empty()
    }
}

/// A selected offset is an offset a `usize` can hold.
pub proof fn lemma_selected_fits(primary: Cursor, cursors: Seq<Cursor>, offset: int)
    requires
        selected(primary, cursors, offset),
    ensures
        0 <= offset <= usize::MAX,
{
    if !primary.covers(offset) {
        let k = choose|k: int| 0 <= k < cursors.len() && #[trigger] cursors[k].covers(offset);
    }
}

/// The contents after applying `edit` to `contents`.
pub open spec fn edited(contents: Seq<u8>, edit: EditAction) -> Seq<u8> {
    match edit {
        EditAction::Delete { .. } => kept(contents, edit.primary(), edit.others(), contents.len() as int),
        EditAction::Replace { new_byte, .. } => Seq::new(
            contents.len(),
            |i: int|
                if selected(edit.primary(), edit.others(), i) {
                    new_byte
                } else {
                    contents[i]
                },
        ),
    }
}

/// The contents after taking `edit` back from `contents`.
pub open spec fn unedited(contents: Seq<u8>, edit: EditAction) -> Seq<u8> {
    match edit {
        EditAction::Delete { .. } => reinserted(contents, edit, 0, 0),
        EditAction::Replace { .. } => Seq::new(
            contents.len(),
            |i: int|
                if selected(edit.primary(), edit.others(), i) {
                    recorded_byte(edit, i)
                } else {
                    contents[i]
                },
        ),
    }
}

/// The kept bytes of a shorter prefix start the kept bytes of a longer one.
pub proof fn lemma_kept_prefix(contents: Seq<u8>, primary: Cursor, cursors: Seq<Cursor>, shorter: int, longer: int)
    requires
        0 <= shorter <= longer,
    ensures
        kept(contents, primary, cursors, shorter).len() <= kept(contents, primary, cursors, longer).len(),
        kept(contents, primary, cursors, longer).subrange(
            0,
            kept(contents, primary, cursors, shorter).len() as int,
        ) == kept(contents, primary, cursors, shorter),
    decreases longer - shorter,
{
    if shorter < longer {
        lemma_kept_prefix(contents, primary, cursors, shorter, longer - 1);
        let a = kept(contents, primary, cursors, shorter);
        let b = kept(contents, primary, cursors, longer - 1);
        let c = kept(contents, primary, cursors, longer);
        if !selected(primary, cursors, longer - 1) {
            assert(c.subrange(0, a.len() as int) =~= b.subrange(0, a.len() as int));
        }
    } else {
        let a = kept(contents, primary, cursors, shorter);
        assert(a.subrange(0, a.len() as int) =~= a);
    }
}

/// A selected offset of an edit recorded on `contents` holds, in the
/// recording, the byte that `contents` has there.
pub proof fn lemma_recorded_byte(edit: EditAction, contents: Seq<u8>, offset: int)
    requires
        edit.recorded_from(contents),
        selected(edit.primary(), edit.others(), offset),
    ensures
        0 <= offset < contents.len(),
        recorded_byte(edit, offset) == contents[offset],
{
    if !edit.primary().covers(offset) {
        let k = choose|k: int| 0 <= k < edit.others().len() && #[trigger] edit.others()[k].covers(offset);
        lemma_first_cover_finds(edit.others(), offset, 0, k);
        let found = first_cover(edit.others(), offset, 0)->0;
        assert(edit.others()[found].upper() < contents.len());
    }
}

/// When some selection from `from` on covers `offset`, the search finds the
/// first one.
pub proof fn lemma_first_cover_finds(cursors: Seq<Cursor>, offset: int, from: int, witness: int)
    requires
        0 <= from <= witness < cursors.len(),
        cursors[witness].covers(offset),
    ensures
        first_cover(cursors, offset, from) matches Some(k) && from <= k <= witness
            && cursors[k].covers(offset),
    decreases witness - from,
{
    if !cursors[from].covers(offset) {
        lemma_first_cover_finds(cursors, offset, from + 1, witness);
    }
}

/// Rebuilding from offset `offset` on, with the kept bytes not yet placed,
/// gives back the rest of the contents the edit was recorded on.
proof fn lemma_reinserted_rest(contents: Seq<u8>, edit: EditAction, offset: int)
    requires
        edit.recorded_from(contents),
        0 <= offset <= contents.len(),
    ensures
        reinserted(
            kept(contents, edit.primary(), edit.others(), contents.len() as int),
            edit,
            offset,
            kept(contents, edit.primary(), edit.others(), offset).len() as int,
        ) == contents.subrange(offset, contents.len() as int),
    decreases contents.len() - offset,
{
    let primary = edit.primary();
    let cursors = edit.others();
    let all_kept = kept(contents, primary, cursors, contents.len() as int);
    let next = kept(contents, primary, cursors, offset).len() as int;
    lemma_kept_prefix(contents, primary, cursors, offset, contents.len() as int);
    if offset == contents.len() {
        if selected(primary, cursors, offset) {
            lemma_recorded_byte(edit, contents, offset);
        }
        assert(contents.subrange(offset, contents.len() as int) =~= Seq::<u8>::empty());
    } else if selected(primary, cursors, offset) {
        lemma_recorded_byte(edit, contents, offset);
        lemma_reinserted_rest(contents, edit, offset + 1);
        assert(contents.subrange(offset, contents.len() as int) =~= seq![contents[offset]]
            + contents.subrange(offset + 1, contents.len() as int));
    } else {
        lemma_kept_prefix(contents, primary, cursors, offset + 1, contents.len() as int);
        let longer = kept(contents, primary, cursors, offset + 1);
        assert(longer[next] == contents[offset]);
        assert(all_kept[next] == longer[next]);
        lemma_reinserted_rest(contents, edit, offset + 1);
        assert(contents.subrange(offset, contents.len() as int) =~= seq![contents[offset]]
            + contents.subrange(offset + 1, contents.len() as int));
    }
}

/// Taking an edit back restores the contents it was recorded on.
pub proof fn lemma_unedit_restores(contents: Seq<u8>, edit: EditAction)
    requires
        edit.recorded_from(contents),
    ensures
        unedited(edited(contents, edit), edit) == contents,
{
    match edit {
        EditAction::Delete { .. } => {
            lemma_reinserted_rest(contents, edit, 0);
            assert(kept(contents, edit.primary(), edit.others(), 0) =~= Seq::<u8>::empty());
            assert(contents.subrange(0, contents.len() as int) =~= contents);
        },
        EditAction::Replace { .. } => {
            assert forall|i: int| 0 <= i < contents.len() implies #[trigger] unedited(
                edited(contents, edit),
                edit,
            )[i] == contents[i] by {
                if selected(edit.primary(), edit.others(), i) {
                    lemma_recorded_byte(edit, contents, i);
                }
            }
            assert(unedited(edited(contents, edit), edit) =~= contents);
        },
    }
}

/// Where a selection lands after the deletion: the single byte at the
/// number of kept bytes before its start, at most the new last byte.
pub open spec fn landed(contents: Seq<u8>, primary: Cursor, cursors: Seq<Cursor>, cursor: Cursor) -> Cursor {
    let remaining = kept(contents, primary, cursors, contents.len() as int);
    Cursor::at_spec(
        min_of(
            kept(contents, primary, cursors, cursor.lower() as int).len() as usize,
            max_index_of(remaining),
        ),
    )
}

/// The index of the first selection that covers `offset`.
pub fn first_covering(cursors: &Vec<Cursor>, offset: usize) -> (found: Option<usize>)
    ensures
        found is Some <==> first_cover(cursors@, offset as int, 0) is Some,
        found matches Some(k) ==> first_cover(cursors@, offset as int, 0) == Some(k as int),
{
    let mut index: usize = 0;
    while index < cursors.len()
        invariant
            index <= cursors@.len(),
            first_cover(cursors@, offset as int, 0) == first_cover(cursors@, offset as int, index as int),
        decreases cursors@.len() - index,
    {
        if cursors[index].lower_bound() <= offset && offset <= cursors[index].upper_bound() {
            return Some(index);
        }
        index = index + 1;
    }
    None
}

/// Whether `offset` is selected by `primary` or one of `cursors`.
pub fn is_selected(primary: Cursor, cursors: &Vec<Cursor>, offset: usize) -> (result: bool)
    ensures
        result == selected(primary, cursors@, offset as int),
{
    if primary.lower_bound() <= offset && offset <= primary.upper_bound() {
        return true;
    }
    let found = first_covering(cursors, offset);
    proof {
        if selected(primary, cursors@, offset as int) {
            let k = choose|k: int| 0 <= k < cursors@.len() && #[trigger] cursors@[k].covers(offset as int);
            lemma_first_cover_finds(cursors@, offset as int, 0, k);
        }
        if found is Some {
            lemma_first_cover_covers(cursors@, offset as int, 0);
        }
    }
    found.is_some()
}

/// What the search finds covers the offset.
pub proof fn lemma_first_cover_covers(cursors: Seq<Cursor>, offset: int, from: int)
    ensures
        first_cover(cursors, offset, from) matches Some(k) ==> 0 <= k < cursors.len()
            && cursors[k].covers(offset),
    decreases cursors.len() - from,
{
    if 0 <= from < cursors.len() && !cursors[from].covers(offset) {
        lemma_first_cover_covers(cursors, offset, from + 1);
    }
}

/// The byte the edit recorded at a selected `offset`.
pub fn recorded_byte_at(edit: &EditAction, offset: usize) -> (byte: u8)
    requires
        edit.well_formed(),
        selected(edit.primary(), edit.others(), offset as int),
    ensures
        byte == recorded_byte(*edit, offset as int),
{
    let primary = edit.primary_cursor();
    if primary.lower_bound() <= offset && offset <= primary.upper_bound() {
        return edit.primary_old_data()[offset - primary.lower_bound()];
    }
    proof {
        let k = choose|k: int| 0 <= k < edit.others().len() && #[trigger] edit.others()[k].covers(offset as int);
        lemma_first_cover_finds(edit.others(), offset as int, 0, k);
    }
    let data = edit.old_data();
    match first_covering(edit.cursors(), offset) {
        Some(k) => {
            proof {
                lemma_first_cover_covers(edit.others(), offset as int, 0);
                assert(data@.map_values(|d: Vec<u8>| d@)[k as int] == data@[k as int]@);
            }
            let cursor = edit.cursors()[k];
            data[k][offset - cursor.lower_bound()]
        },
        None => 0,
    }
}

/// The list of selections, copied.
fn copy_cursors(cursors: &Vec<Cursor>) -> (copy: Vec<Cursor>)
    ensures
        copy@ == cursors@,
{
    let mut copy: Vec<Cursor> = Vec::new();
    let mut index: usize = 0;
    while index < cursors.len()
        invariant
            index <= cursors@.len(),
            copy@ == cursors@.take(index as int),
        decreases cursors@.len() - index,
    {
        copy.push(cursors[index]);
        assert(copy@ =~= cursors@.take(index + 1));
        index = index + 1;
    }
    assert(cursors@.take(index as int) =~= cursors@);
    copy
}

/// The selections after `edit`, before they are merged: after a deletion
/// each lands on a single byte (see `landed`), the others sorted by head;
/// after a replacement they are the edit's own selections.
pub open spec fn selections_after_edit(
    contents: Seq<u8>,
    edit: EditAction,
    primary: Cursor,
    cursors: Seq<Cursor>,
) -> bool {
    match edit {
        EditAction::Delete { .. } => {
            &&& primary == landed(contents, edit.primary(), edit.others(), edit.primary())
            &&& cursors.to_multiset() == edit.others().map_values(
                |cursor: Cursor| landed(contents, edit.primary(), edit.others(), cursor),
            ).to_multiset()
            &&& sorted_by_head(cursors)
            &&& keeps_order_of_equal_heads(
                edit.others().map_values(|cursor: Cursor| landed(contents, edit.primary(), edit.others(), cursor)),
                cursors,
            )
        },
        EditAction::Replace { .. } => primary == edit.primary() && cursors == edit.others(),
    }
}

/// The selections and the view after `edit` was applied to `before`: the
/// selections as `selections_after_edit` places them, merged where they
/// overlap, and the view kept inside the contents and moved to the primary
/// head.
pub open spec fn placed_after_edit(before: Buffer, edit: EditAction, after: Buffer, window_size: WindowSize) -> bool {
    exists|primary: Cursor, cursors: Seq<Cursor>|
        #![trigger selections_after_edit(before.contents@, edit, primary, cursors)]
        {
            let max = max_index_of(after.contents@);
            let merged_selection = merged(primary, cursors, 0);
            &&& selections_after_edit(before.contents@, edit, primary, cursors)
            &&& after.primary_cursor == merged_selection.0
            &&& after.cursors@ == merged_selection.1
            &&& after.scroll_position == clamped_to_head(
                clamped_to_contents(before.scroll_position as int, max as int, window_size),
                merged_selection.0.head as int,
                max as int,
                window_size,
            )
        }
}

/// Redoing what was just undone gives back the contents before the undo.
pub proof fn lemma_undo_then_redo(buffer: Buffer)
    requires
        buffer.history_consistent(),
        buffer.now() > 0,
    ensures
        ({
            let edit = buffer.edit_history@[buffer.now() - 1];
            edited(unedited(buffer.contents@, edit), edit) == buffer.contents@
        }),
{
    let snapshots = choose|snapshots: Seq<Seq<u8>>| #[trigger] buffer.snapshots_fit(snapshots);
    let k = buffer.now() - 1;
    lemma_unedit_restores(snapshots[k], buffer.edit_history@[k]);
}

/// Undoing what was just redone gives back the contents before the redo.
pub proof fn lemma_redo_then_undo(buffer: Buffer)
    requires
        buffer.history_consistent(),
        buffer.time_traveling is Some,
    ensures
        ({
            let edit = buffer.edit_history@[buffer.now()];
            unedited(edited(buffer.contents@, edit), edit) == buffer.contents@
        }),
{
    let snapshots = choose|snapshots: Seq<Seq<u8>>| #[trigger] buffer.snapshots_fit(snapshots);
    lemma_unedit_restores(snapshots[buffer.now()], buffer.edit_history@[buffer.now()]);
}

/// Consistency of the history depends only on the contents, the history and
/// the positions in it.
pub proof fn lemma_history_consistent_keeps(a: &Buffer, b: &Buffer)
    requires
        a.history_consistent(),
        a.contents@ == b.contents@,
        a.edit_history@ == b.edit_history@,
        a.time_traveling == b.time_traveling,
        a.last_saved_at == b.last_saved_at,
    ensures
        b.history_consistent(),
{
    let snapshots = choose|snapshots: Seq<Seq<u8>>| #[trigger] a.snapshots_fit(snapshots);
    assert(b.snapshots_fit(snapshots));
}

impl Buffer {
    /// The position in the edit history: the number of edits applied.
    pub open spec fn now(&self) -> int {
        match self.time_traveling {
            Some(time) => time as int,
            None => self.edit_history@.len() as int,
        }
    }

    /// `snapshots[k]` is what the contents were with the first `k` edits of
    /// the history applied: each edit was recorded on the snapshot before it
    /// and turns it into the next one, and the current contents are the
    /// snapshot at the current position.
    pub open spec fn snapshots_fit(&self, snapshots: Seq<Seq<u8>>) -> bool {
        &&& snapshots.len() == self.edit_history@.len() + 1
        &&& snapshots[self.now()] == self.contents@
        &&& forall|k: int| 0 <= k <= self.edit_history@.len() ==> (#[trigger] snapshots[k]).len() <= isize::MAX
        &&& forall|k: int|
            0 <= k < self.edit_history@.len() ==> {
                &&& (#[trigger] self.edit_history@[k]).recorded_from(snapshots[k])
                &&& snapshots[k + 1] == edited(snapshots[k], self.edit_history@[k])
            }
    }

    /// The edit history can be walked: undoing and redoing move between
    /// snapshots of the contents, and the saved position lies in the history.
    pub open spec fn history_consistent(&self) -> bool {
        &&& self.time_traveling matches Some(time) ==> time < self.edit_history@.len()
        &&& self.last_saved_at matches Some(saved) ==> saved <= self.edit_history@.len()
        &&& exists|snapshots: Seq<Seq<u8>>| #[trigger] self.snapshots_fit(snapshots)
    }

    /// Applies `edit` (recorded on the current contents) and moves the
    /// selections: after a deletion every selection shrinks to the byte where
    /// its start was, overlapping ones merge; after a replacement the edit's
    /// selections are restored. Then the view follows the primary head.
    pub fn execute_edit(&mut self, edit: &EditAction, window_size: WindowSize)
        requires
            old(self).sizes_ok(window_size),
            edit.recorded_from(old(self).contents@),
        ensures
            final(self).contents@ == edited(old(self).contents@, *edit),
            placed_after_edit(*old(self), *edit, *final(self), window_size),
            *final(self) == (Buffer {
                contents: final(self).contents,
                primary_cursor: final(self).primary_cursor,
                cursors: final(self).cursors,
                scroll_position: final(self).scroll_position,
                ..*old(self)
            }),
            final(self).sizes_ok(window_size),
            old(self).scroll_position % 16 == 0 ==> final(self).scroll_position % 16 == 0,
    {
        let ghost before = self.contents@;
        let primary = edit.primary_cursor();
        let ghost selection_primary;
        let ghost selection_cursors;
        match edit {
            EditAction::Delete { cursors, .. } => {
                let kept_counts = self.remove_selected(primary, cursors);
                let new_max = self.max_contents_index();
                let ghost old_length = before.len();
                assert(kept_counts@[old_length as int] == self.contents@.len());
                let landing = kept_counts[primary.lower_bound()];
                self.primary_cursor = Cursor::at(if landing <= new_max { landing } else { new_max });
                let mut landed_cursors: Vec<Cursor> = Vec::new();
                let mut index: usize = 0;
                while index < cursors.len()
                    invariant
                        index <= cursors@.len(),
                        cursors@ == edit.others(),
                        edit.recorded_from(before),
                        kept_counts@.len() == before.len() + 1,
                        forall|i: int|
                            0 <= i <= before.len() ==> #[trigger] kept_counts@[i] == kept(
                                before,
                                primary,
                                cursors@,
                                i,
                            ).len(),
                        new_max == max_index_of(kept(before, primary, cursors@, before.len() as int)),
                        landed_cursors@ == cursors@.take(index as int).map_values(
                            |cursor: Cursor| landed(before, primary, cursors@, cursor),
                        ),
                        all_within(landed_cursors@, new_max),
                    decreases cursors@.len() - index,
                {
                    let cursor = cursors[index];
                    assert(edit.others()[index as int] == cursor);
                    let landing = kept_counts[cursor.lower_bound()];
                    landed_cursors.push(Cursor::at(if landing <= new_max { landing } else { new_max }));
                    assert(landed_cursors@ =~= cursors@.take(index + 1).map_values(
                        |cursor: Cursor| landed(before, primary, cursors@, cursor),
                    ));
                    index = index + 1;
                }
                assert(cursors@.take(index as int) =~= cursors@);
                let ghost unsorted = landed_cursors@;
                sort_cursors_by_head(&mut landed_cursors);
                proof {
                    lemma_same_multiset(unsorted, landed_cursors@);
                    assert forall|k: int| 0 <= k < landed_cursors@.len() implies (#[trigger] landed_cursors@[k]).within(new_max) by {
                        assert(landed_cursors@.contains(landed_cursors@[k]));
                        let j = choose|j: int| 0 <= j < unsorted.len() && unsorted[j] == landed_cursors@[k];
                        assert(unsorted[j].within(new_max));
                    }
                    selection_primary = self.primary_cursor;
                    selection_cursors = landed_cursors@;
                }
                self.cursors = landed_cursors;
            },
            EditAction::Replace { cursors, new_byte, .. } => {
                self.overwrite_selected(primary, cursors, *new_byte);
                self.primary_cursor = primary;
                self.cursors = copy_cursors(cursors);
                assert(all_within(self.cursors@, self.max_index())) by {
                    assert forall|k: int| 0 <= k < self.cursors@.len() implies (#[trigger] self.cursors@[k]).within(self.max_index()) by {
                        assert(edit.others()[k].upper() < before.len());
                    }
                }
                proof {
                    selection_primary = self.primary_cursor;
                    selection_cursors = self.cursors@;
                }
            },
        }
        assert(self.contents@ == edited(before, *edit));
        assert(selections_after_edit(before, *edit, selection_primary, selection_cursors));
        self.combine_cursors_if_overlapping();
        let ghost merged_primary = self.primary_cursor;
        self.clamp_screen_to_contents(window_size);
        proof {
            lemma_clamped_within_contents(
                old(self).scroll_position as int,
                self.max_index() as int,
                window_size,
            );
            lemma_line_floor(self.max_index() as int);
            lemma_clamped_to_head_shows_head(
                self.scroll_position as int,
                self.primary_cursor.head as int,
                self.max_index() as int,
                window_size,
            );
        }
        self.clamp_screen_to_primary_cursor(window_size);
    }

    /// Takes back `edit`, which turned some contents `x` into the current
    /// ones: the contents become `x` again (see `unedited`) and the edit's
    /// selections are restored; the view follows the primary head.
    pub fn undo_edit(&mut self, edit: &EditAction, window_size: WindowSize)
        requires
            old(self).sizes_ok(window_size),
            exists|x: Seq<u8>|
                #[trigger] edit.recorded_from(x) && x.len() <= isize::MAX && old(self).contents@ == edited(
                    x,
                    *edit,
                ),
        ensures
            final(self).contents@ == unedited(old(self).contents@, *edit),
            forall|x: Seq<u8>|
                #[trigger] edit.recorded_from(x) && old(self).contents@ == edited(x, *edit)
                    ==> final(self).contents@ == x,
            *final(self) == (Buffer {
                contents: final(self).contents,
                primary_cursor: edit.primary(),
                cursors: final(self).cursors,
                scroll_position: clamped_to_head(
                    clamped_to_contents(
                        old(self).scroll_position as int,
                        max_index_of(final(self).contents@) as int,
                        window_size,
                    ),
                    edit.primary().head as int,
                    max_index_of(final(self).contents@) as int,
                    window_size,
                ) as usize,
                ..*old(self)
            }),
            final(self).cursors@ == edit.others(),
            final(self).sizes_ok(window_size),
            old(self).scroll_position % 16 == 0 ==> final(self).scroll_position % 16 == 0,
    {
        let ghost x = choose|x: Seq<u8>|
            #[trigger] edit.recorded_from(x) && x.len() <= isize::MAX && old(self).contents@ == edited(x, *edit);
        proof {
            lemma_unedit_restores(x, *edit);
        }
        let primary = edit.primary_cursor();
        let cursors = edit.cursors();
        match edit {
            EditAction::Delete { .. } => {
                let mut bound: usize = primary.upper_bound() + 1;
                let mut index: usize = 0;
                while index < cursors.len()
                    invariant
                        index <= cursors@.len(),
                        cursors@ == edit.others(),
                        edit.recorded_from(x),
                        x.len() <= isize::MAX,
                        bound <= x.len(),
                        primary.upper() < bound,
                        forall|k: int| 0 <= k < index ==> (#[trigger] cursors@[k]).upper() < bound,
                    decreases cursors@.len() - index,
                {
                    assert(edit.others()[index as int].upper() < x.len());
                    if cursors[index].upper_bound() + 1 > bound {
                        bound = cursors[index].upper_bound() + 1;
                    }
                    index = index + 1;
                }
                let current = &self.contents;
                let mut restored: Vec<u8> = Vec::new();
                let mut offset: usize = 0;
                let mut next: usize = 0;
                loop
                    invariant
                        restored@ + reinserted(current@, *edit, offset as int, next as int) == reinserted(
                            current@,
                            *edit,
                            0,
                            0,
                        ),
                        cursors@ == edit.others(),
                        primary == edit.primary(),
                        edit.well_formed(),
                        next <= current@.len(),
                        current@.len() <= isize::MAX,
                        bound <= isize::MAX,
                        offset <= bound + next,
                        forall|i: int| selected(primary, cursors@, i) ==> i < bound,
                    ensures
                        restored@ == reinserted(current@, *edit, 0, 0),
                    decreases current@.len() - next + (if offset <= bound { bound - offset } else { 0 }),
                {
                    if is_selected(primary, cursors, offset) {
                        restored.push(recorded_byte_at(edit, offset));
                        offset = offset + 1;
                    } else if next < current.len() {
                        restored.push(current[next]);
                        offset = offset + 1;
                        next = next + 1;
                    } else {
                        break;
                    }
                }
                self.contents = restored;
            },
            EditAction::Replace { .. } => {
                let length = self.contents.len();
                let mut index: usize = 0;
                while index < length
                    invariant
                        length == self.contents@.len() == old(self).contents@.len(),
                        *self == (Buffer { contents: self.contents, ..*old(self) }),
                        cursors@ == edit.others(),
                        primary == edit.primary(),
                        edit.well_formed(),
                        index <= length,
                        forall|i: int|
                            0 <= i < index ==> #[trigger] self.contents@[i] == if selected(primary, cursors@, i) {
                                recorded_byte(*edit, i)
                            } else {
                                old(self).contents@[i]
                            },
                        forall|i: int| index <= i < length ==> #[trigger] self.contents@[i] == old(self).contents@[i],
                    decreases length - index,
                {
                    if is_selected(primary, cursors, index) {
                        let byte = recorded_byte_at(edit, index);
                        self.contents.set(index, byte);
                    }
                    index = index + 1;
                }
                assert(self.contents@ =~= unedited(old(self).contents@, *edit));
            },
        }
        assert(self.contents@ == x);
        assert forall|y: Seq<u8>|
            #[trigger] edit.recorded_from(y) && old(self).contents@ == edited(y, *edit) implies self.contents@ == y by {
            lemma_unedit_restores(y, *edit);
        }
        self.primary_cursor = primary;
        self.cursors = copy_cursors(cursors);
        assert(all_within(self.cursors@, self.max_index())) by {
            assert forall|k: int| 0 <= k < self.cursors@.len() implies (#[trigger] self.cursors@[k]).within(self.max_index()) by {
                assert(edit.others()[k].upper() < x.len());
            }
        }
        self.clamp_screen_to_contents(window_size);
        proof {
            lemma_clamped_within_contents(
                old(self).scroll_position as int,
                self.max_index() as int,
                window_size,
            );
            lemma_line_floor(self.max_index() as int);
            lemma_clamped_to_head_shows_head(
                self.scroll_position as int,
                self.primary_cursor.head as int,
                self.max_index() as int,
                window_size,
            );
        }
        self.clamp_screen_to_primary_cursor(window_size);
    }

    /// Applies `edit` and records it in the history. Edits undone before
    /// are dropped from the history, and so is the saved position if it was
    /// among them.
    pub fn execute_and_add(&mut self, edit: EditAction, window_size: WindowSize)
        requires
            old(self).sizes_ok(window_size),
            old(self).history_consistent(),
            edit.recorded_from(old(self).contents@),
        ensures
            final(self).contents@ == edited(old(self).contents@, edit),
            final(self).edit_history@ == old(self).edit_history@.take(old(self).now()).push(edit),
            final(self).time_traveling is None,
            final(self).last_saved_at == match old(self).last_saved_at {
                Some(saved) => if saved <= old(self).now() {
                    Some(saved)
                } else {
                    None
                },
                None => None,
            },
            final(self).history_consistent(),
            !final(self).saved(),
            final(self).sizes_ok(window_size),
            old(self).scroll_position % 16 == 0 ==> final(self).scroll_position % 16 == 0,
            placed_after_edit(*old(self), edit, *final(self), window_size),
            *final(self) == (Buffer {
                contents: final(self).contents,
                primary_cursor: final(self).primary_cursor,
                cursors: final(self).cursors,
                scroll_position: final(self).scroll_position,
                edit_history: final(self).edit_history,
                time_traveling: None,
                last_saved_at: final(self).last_saved_at,
                ..*old(self)
            }),
    {
        let ghost snapshots = choose|snapshots: Seq<Seq<u8>>| #[trigger] self.snapshots_fit(snapshots);
        let ghost now = self.now();
        self.execute_edit(&edit, window_size);
        let ghost applied = *self;
        if let Some(time) = self.time_traveling {
            self.edit_history.truncate(time);
            if let Some(saved) = self.last_saved_at {
                if saved > time {
                    self.last_saved_at = None;
                }
            }
            self.time_traveling = None;
        }
        self.edit_history.push(edit);
        assert(placed_after_edit(*old(self), edit, applied, window_size));
        proof {
            let kept_snapshots = snapshots.take(now + 1).push(self.contents@);
            assert(self.snapshots_fit(kept_snapshots)) by {
                assert(kept_snapshots[now] == snapshots[now]);
                assert forall|k: int| 0 <= k < self.edit_history@.len() implies {
                    &&& (#[trigger] self.edit_history@[k]).recorded_from(kept_snapshots[k])
                    &&& kept_snapshots[k + 1] == edited(kept_snapshots[k], self.edit_history@[k])
                } by {
                    if k < now {
                        assert(self.edit_history@[k] == old(self).edit_history@[k]);
                    }
                }
                assert forall|k: int| 0 <= k <= self.edit_history@.len() implies (#[trigger] kept_snapshots[k]).len() <= isize::MAX by {}
            }
        }
    }

    /// What `undo` leaves, given the buffer before it.
    #[verifier::opaque]
    pub open spec fn undo_effect(before: Buffer, after: Buffer, window_size: WindowSize) -> bool {
        &&& (before.now() == 0 ==> after == before)
        &&& (before.now() > 0 ==> {
            let edit = before.edit_history@[before.now() - 1];
            &&& after.contents@ == unedited(before.contents@, edit)
            &&& after.time_traveling == Some((before.now() - 1) as usize)
            &&& after.edit_history@ == before.edit_history@
            &&& after.primary_cursor == edit.primary()
            &&& after.cursors@ == edit.others()
            &&& after.scroll_position == clamped_to_head(
                clamped_to_contents(
                    before.scroll_position as int,
                    max_index_of(after.contents@) as int,
                    window_size,
                ),
                edit.primary().head as int,
                max_index_of(after.contents@) as int,
                window_size,
            )
            &&& after == (Buffer {
                contents: after.contents,
                primary_cursor: after.primary_cursor,
                cursors: after.cursors,
                scroll_position: after.scroll_position,
                edit_history: after.edit_history,
                time_traveling: after.time_traveling,
                ..before
            })
        })
        &&& (after.history_consistent())
        &&& (after.sizes_ok(window_size))
        &&& (before.scroll_position % 16 == 0 ==> after.scroll_position % 16 == 0)
        &&& (before.wf(window_size) ==> after.wf(window_size))
    }

    /// Takes back the latest applied edit.
    pub fn undo(&mut self, window_size: WindowSize)
        requires
            old(self).sizes_ok(window_size),
            old(self).history_consistent(),
        ensures
            Self::undo_effect(*old(self), *final(self), window_size),
    {
        proof {
            reveal(Buffer::undo_effect);
        }
        if self.time_traveling == Some(0usize) || self.edit_history.len() == 0 {
            return;
        }
        let ghost snapshots = choose|snapshots: Seq<Seq<u8>>| #[trigger] self.snapshots_fit(snapshots);
        let current_date = match self.time_traveling {
            Some(date) => date - 1,
            None => self.edit_history.len() - 1,
        };
        self.time_traveling = Some(current_date);
        let edit = self.edit_history.remove(current_date);
        assert(edit.recorded_from(snapshots[current_date as int]));
        self.undo_edit(&edit, window_size);
        self.edit_history.insert(current_date, edit);
        proof {
            assert(self.edit_history@ =~= old(self).edit_history@);
            assert(self.snapshots_fit(snapshots));
        }
    }

    /// What `redo` leaves, given the buffer before it.
    #[verifier::opaque]
    pub open spec fn redo_effect(before: Buffer, after: Buffer, window_size: WindowSize) -> bool {
        &&& (before.time_traveling is None ==> after == before)
        &&& (before.time_traveling matches Some(time) ==> {
            let edit = before.edit_history@[time as int];
            &&& after.contents@ == edited(before.contents@, edit)
            &&& after.time_traveling == if time + 1 == before.edit_history@.len() {
                None
            } else {
                Some((time + 1) as usize)
            }
            &&& after.edit_history@ == before.edit_history@
            &&& placed_after_edit(before, edit, after, window_size)
            &&& after == (Buffer {
                contents: after.contents,
                primary_cursor: after.primary_cursor,
                cursors: after.cursors,
                scroll_position: after.scroll_position,
                edit_history: after.edit_history,
                time_traveling: after.time_traveling,
                ..before
            })
        })
        &&& (after.history_consistent())
        &&& (after.sizes_ok(window_size))
        &&& (before.scroll_position % 16 == 0 ==> after.scroll_position % 16 == 0)
        &&& (before.wf(window_size) ==> after.wf(window_size))
    }

    /// Applies again the latest undone edit.
    pub fn redo(&mut self, window_size: WindowSize)
        requires
            old(self).sizes_ok(window_size),
            old(self).history_consistent(),
        ensures
            Self::redo_effect(*old(self), *final(self), window_size),
    {
        proof {
            reveal(Buffer::redo_effect);
        }
        let previous_date = match self.time_traveling {
            Some(date) => date,
            None => {
                return;
            },
        };
        let ghost snapshots = choose|snapshots: Seq<Seq<u8>>| #[trigger] self.snapshots_fit(snapshots);
        let length = self.edit_history.len();
        assert(previous_date < length);
        let current_date = previous_date + 1;
        self.time_traveling = if current_date == length {
            None
        } else {
            Some(current_date)
        };
        let edit = self.edit_history.remove(previous_date);
        assert(edit.recorded_from(snapshots[previous_date as int]));
        self.execute_edit(&edit, window_size);
        self.edit_history.insert(previous_date, edit);
        proof {
            assert(self.edit_history@ =~= old(self).edit_history@);
            assert(self.snapshots_fit(snapshots));
        }
    }

    /// What `save` leaves, given the buffer before it.
    #[verifier::opaque]
    pub open spec fn save_effect(before: Buffer, after: Buffer) -> bool {
        &&& (after == (Buffer { last_saved_at: Some(before.now() as usize), ..before }))
        &&& (after.saved())
        &&& (before.history_consistent() ==> after.history_consistent())
    }

    /// Records the current position in the history as saved (the bytes are
    /// written out by the caller).
    pub fn save(&mut self)
        ensures
            Self::save_effect(*old(self), *final(self)),
    {
        proof {
            reveal(Buffer::save_effect);
        }
        self.last_saved_at = Some(
            match self.time_traveling {
                Some(time) => time,
                None => self.edit_history.len(),
            },
        );
        proof {
            if old(self).history_consistent() {
                let snapshots = choose|snapshots: Seq<Seq<u8>>| #[trigger] old(self).snapshots_fit(snapshots);
                assert(self.snapshots_fit(snapshots));
            }
        }
    }

    /// What `delete` leaves, given the buffer before it.
    #[verifier::opaque]
    pub open spec fn delete_effect(before: Buffer, after: Buffer, window_size: WindowSize) -> bool {
        &&& (before.contents@.len() > 0 ==> {
            &&& after.edit_history@.len() == before.now() + 1
            &&& after.edit_history@.last() matches EditAction::Delete { primary_cursor, cursors, .. }
                && primary_cursor == before.primary_cursor && cursors@ == before.cursors@
            &&& after.contents@ == kept(
                before.contents@,
                before.primary_cursor,
                before.cursors@,
                before.contents@.len() as int,
            )
            &&& after.edit_history@.last().recorded_from(before.contents@)
            &&& after.edit_history@ == before.edit_history@.take(before.now()).push(after.edit_history@.last())
            &&& placed_after_edit(before, after.edit_history@.last(), after, window_size)
            &&& after.last_saved_at == match before.last_saved_at {
                Some(saved) => if saved <= before.now() {
                    Some(saved)
                } else {
                    None
                },
                None => None,
            }
            &&& after == (Buffer {
                contents: after.contents,
                primary_cursor: after.primary_cursor,
                cursors: after.cursors,
                scroll_position: after.scroll_position,
                edit_history: after.edit_history,
                time_traveling: None,
                last_saved_at: after.last_saved_at,
                mode: Mode::Normal,
                ..before
            })
        })
        &&& (before.contents@.len() == 0 ==> after == (Buffer { mode: after.mode, ..before }))
        &&& (after.mode == Mode::Normal)
        &&& (after.history_consistent())
        &&& (after.sizes_ok(window_size))
        &&& (before.scroll_position % 16 == 0 ==> after.scroll_position % 16 == 0)
        &&& (before.wf(window_size) ==> after.wf(window_size))
    }

    /// Records a deletion of every selected byte and applies it (not in an
    /// empty buffer); select mode ends.
    pub fn delete(&mut self, window_size: WindowSize)
        requires
            old(self).sizes_ok(window_size),
            old(self).history_consistent(),
        ensures
            Self::delete_effect(*old(self), *final(self), window_size),
    {
        proof {
            reveal(Buffer::delete_effect);
        }
        if self.contents.len() != 0 {
            let edit = self.recorded_edit(None);
            self.execute_and_add(edit, window_size);
        }
        let ghost before = *self;
        if self.mode == Mode::Select {
            self.mode = Mode::Normal;
        }
        proof {
            lemma_history_consistent_keeps(&before, self);
        }
    }

    /// An edit of the current selections, recorded on the current contents:
    /// a deletion, or a replacement with `new_byte` when it is given.
    pub(crate) fn recorded_edit(&self, new_byte: Option<u8>) -> (edit: EditAction)
        requires
            self.sizes_ok_for_edit(),
        ensures
            edit.recorded_from(self.contents@),
            edit.primary() == self.primary_cursor,
            edit.others() == self.cursors@,
            new_byte is None ==> edit is Delete,
            new_byte matches Some(byte) ==> edit matches EditAction::Replace { new_byte: b, .. } && b == byte,
    {
        let primary_old_data = self.selected_bytes(self.primary_cursor);
        let mut old_data: Vec<Vec<u8>> = Vec::new();
        let mut index: usize = 0;
        while index < self.cursors.len()
            invariant
                self.sizes_ok_for_edit(),
                index <= self.cursors@.len(),
                old_data@.len() == index,
                forall|k: int|
                    0 <= k < index ==> (#[trigger] old_data@[k])@ == self.contents@.subrange(
                        self.cursors@[k].lower() as int,
                        self.cursors@[k].upper() + 1,
                    ),
            decreases self.cursors@.len() - index,
        {
            assert(self.cursors@[index as int].within(self.max_index()));
            old_data.push(self.selected_bytes(self.cursors[index]));
            index = index + 1;
        }
        let cursors = copy_cursors(&self.cursors);
        let edit = match new_byte {
            Some(byte) => EditAction::Replace {
                primary_cursor: self.primary_cursor,
                cursors,
                primary_old_data,
                old_data,
                new_byte: byte,
            },
            None => EditAction::Delete {
                primary_cursor: self.primary_cursor,
                cursors,
                primary_old_data,
                old_data,
            },
        };
        assert(edit.other_data() =~= old_data@.map_values(|data: Vec<u8>| data@));
        assert forall|k: int| 0 <= k < edit.others().len() implies {
            &&& (#[trigger] edit.others()[k]).upper() < self.contents@.len()
            &&& edit.other_data()[k] == self.contents@.subrange(
                edit.others()[k].lower() as int,
                edit.others()[k].upper() + 1,
            )
        } by {
            assert(self.cursors@[k].within(self.max_index()));
        }
        edit
    }

    /// The selections lie inside non-empty contents that fit in memory.
    pub open spec fn sizes_ok_for_edit(&self) -> bool {
        &&& self.contents@.len() > 0
        &&& self.contents@.len() <= isize::MAX
        &&& self.cursors_in_bounds()
    }

    /// Removes every selected byte. Returns, for each offset up to the old
    /// length, how many kept bytes lie before it.
    fn remove_selected(&mut self, primary: Cursor, cursors: &Vec<Cursor>) -> (kept_counts: Vec<usize>)
        ensures
            *final(self) == (Buffer { contents: final(self).contents, ..*old(self) }),
            final(self).contents@ == kept(old(self).contents@, primary, cursors@, old(self).contents@.len() as int),
            final(self).contents@.len() <= old(self).contents@.len(),
            kept_counts@.len() == old(self).contents@.len() + 1,
            forall|i: int|
                0 <= i <= old(self).contents@.len() ==> #[trigger] kept_counts@[i] == kept(
                    old(self).contents@,
                    primary,
                    cursors@,
                    i,
                ).len(),
    {
        let length = self.contents.len();
        let mut remaining: Vec<u8> = Vec::new();
        let mut kept_counts: Vec<usize> = Vec::new();
        let mut index: usize = 0;
        while index < length
            invariant
                length == self.contents@.len(),
                *self == *old(self),
                index <= length,
                remaining@ == kept(self.contents@, primary, cursors@, index as int),
                remaining@.len() <= index,
                kept_counts@.len() == index,
                forall|i: int|
                    0 <= i < index ==> #[trigger] kept_counts@[i] == kept(self.contents@, primary, cursors@, i).len(),
            decreases length - index,
        {
            kept_counts.push(remaining.len());
            if !is_selected(primary, cursors, index) {
                remaining.push(self.contents[index]);
            }
            index = index + 1;
        }
        kept_counts.push(remaining.len());
        self.contents = remaining;
        kept_counts
    }

    /// Overwrites every selected byte with `new_byte`.
    fn overwrite_selected(&mut self, primary: Cursor, cursors: &Vec<Cursor>, new_byte: u8)
        ensures
            *final(self) == (Buffer { contents: final(self).contents, ..*old(self) }),
            final(self).contents@ == Seq::new(
                old(self).contents@.len(),
                |i: int|
                    if selected(primary, cursors@, i) {
                        new_byte
                    } else {
                        old(self).contents@[i]
                    },
            ),
    {
        let length = self.contents.len();
        let mut index: usize = 0;
        while index < length
            invariant
                length == self.contents@.len() == old(self).contents@.len(),
                *self == (Buffer { contents: self.contents, ..*old(self) }),
                index <= length,
                forall|i: int|
                    0 <= i < index ==> #[trigger] self.contents@[i] == if selected(primary, cursors@, i) {
                        new_byte
                    } else {
                        old(self).contents@[i]
                    },
                forall|i: int| index <= i < length ==> #[trigger] self.contents@[i] == old(self).contents@[i],
            decreases length - index,
        {
            if is_selected(primary, cursors, index) {
                self.contents.set(index, new_byte);
            }
            index = index + 1;
        }
        assert(self.contents@ =~= Seq::new(
            old(self).contents@.len(),
            |i: int|
                if selected(primary, cursors@, i) {
                    new_byte
                } else {
                    old(self).contents@[i]
                },
        ));
    }
}

/// Undoing a deletion brings back the deleted bytes and the selections
/// as they were before it.
pub proof fn lemma_delete_then_undo(first: Buffer, second: Buffer, third: Buffer, window_size: WindowSize)
    requires
        first.contents@.len() > 0,
        Buffer::delete_effect(first, second, window_size),
        Buffer::undo_effect(second, third, window_size),
    ensures
        third.contents@ == first.contents@,
        third.primary_cursor == first.primary_cursor,
        third.cursors@ == first.cursors@,
{
    reveal(Buffer::delete_effect);
    reveal(Buffer::undo_effect);
    let edit = second.edit_history@.last();
    assert(second.now() == first.now() + 1);
    assert(second.edit_history@[second.now() - 1] == edit);
    lemma_unedit_restores(first.contents@, edit);
}

/// A buffer counts as saved exactly when its position in the history is
/// the one recorded at the last save; so, with a consistent history, its
/// contents are then the contents it had at that save.
pub proof fn lemma_saved_means_at_the_saved_position(buffer: Buffer)
    ensures
        buffer.saved() <==> (buffer.last_saved_at matches Some(saved) && saved == buffer.now()),
        buffer.history_consistent() && buffer.saved() ==> forall|snapshots: Seq<Seq<u8>>|
            #[trigger] buffer.snapshots_fit(snapshots) ==> snapshots[buffer.last_saved_at.unwrap() as int]
                == buffer.contents@,
{
}

} // verus!
