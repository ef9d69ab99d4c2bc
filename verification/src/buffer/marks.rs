use vstd::prelude::*;
use std::collections::HashSet;
use crate::buffer::Buffer;
use crate::cursor::Cursor;
use crate::sorting::{lemma_same_multiset, search_offsets, sort_offsets, strictly_increasing};

verus! {

broadcast use vstd::std_specs::hash::group_hash_axioms;

/// The mark at or before `offset`: the greatest mark not above it, or 0 when
/// there is none.
pub open spec fn is_mark_before(result: usize, offset: usize, sorted_marks: Seq<usize>) -> bool {
    if exists|i: int| 0 <= i < sorted_marks.len() && sorted_marks[i] <= offset {
        &&& sorted_marks.contains(result)
        &&& result <= offset
        &&& forall|i: int|
            0 <= i < sorted_marks.len() && sorted_marks[i] <= offset ==> sorted_marks[i] <= result
    } else {
        result == 0
    }
}

/// The mark after `offset`: the least mark above it, or `max + 1` when there
/// is none.
pub open spec fn is_mark_after(result: int, offset: usize, sorted_marks: Seq<usize>, max: usize) -> bool {
    if exists|i: int| 0 <= i < sorted_marks.len() && sorted_marks[i] > offset {
        &&& sorted_marks.contains(result as usize)
        &&& result > offset
        &&& forall|i: int|
            0 <= i < sorted_marks.len() && sorted_marks[i] > offset ==> sorted_marks[i] >= result
    } else {
        result == max + 1
    }
}

/// The nearest mark at or before `offset`, or 0 if no mark is before.
pub fn mark_before(offset: usize, sorted_marks: &[usize]) -> (mark: usize)
    requires
        strictly_increasing(sorted_marks@),
    ensures
        is_mark_before(mark, offset, sorted_marks@),
{
    match search_offsets(sorted_marks, offset) {
        Ok(_) => {
            proof {
                let k = choose|k: int| 0 <= k < sorted_marks@.len() && sorted_marks@[k] == offset;
                assert(sorted_marks@.contains(offset));
            }
            offset
        },
        Err(0) => 0,
        Err(mark_after_index) => {
            let mark = sorted_marks[mark_after_index - 1];
            assert(sorted_marks@.contains(mark));
            mark
        },
    }
}

/// The nearest mark after `offset`, or `max + 1` (the end) if no mark is
/// after.
pub fn mark_after(offset: usize, sorted_marks: &[usize], max: usize) -> (mark: usize)
    requires
        strictly_increasing(sorted_marks@),
        max < usize::MAX,
    ensures
        is_mark_after(mark as int, offset, sorted_marks@, max),
{
    if sorted_marks.len() == 0 {
        return max + 1;
    }
    match search_offsets(sorted_marks, offset) {
        Ok(mark_before_index) => {
            if mark_before_index == sorted_marks.len() - 1 {
                max + 1
            } else {
                let mark = sorted_marks[mark_before_index + 1];
                assert(sorted_marks@.contains(mark));
                mark
            }
        },
        Err(mark_after_index) => {
            if mark_after_index == sorted_marks.len() {
                max + 1
            } else {
                let mark = sorted_marks[mark_after_index];
                assert(sorted_marks@.contains(mark));
                mark
            }
        },
    }
}

/// `marks` with `offset` added, or removed if it was there.
pub open spec fn toggled(marks: Set<usize>, offset: usize) -> Set<usize> {
    if marks.contains(offset) {
        marks.remove(offset)
    } else {
        marks.insert(offset)
    }
}

/// `marks` with each offset of the list toggled in turn.
pub open spec fn toggled_all(marks: Set<usize>, offsets: Seq<usize>) -> Set<usize>
    decreases offsets.len(),
{
    if offsets.len() == 0 {
        marks
    } else {
        toggled(toggled_all(marks, offsets.drop_last()), offsets.last())
    }
}

/// Whether `offset` occurs an odd number of times in `offsets`.
pub open spec fn occurs_oddly(offsets: Seq<usize>, offset: usize) -> bool
    decreases offsets.len(),
{
    if offsets.len() == 0 {
        false
    } else {
        occurs_oddly(offsets.drop_last(), offset) != (offsets.last() == offset)
    }
}

/// After toggling a list of offsets, an offset is marked exactly when it was
/// marked before or occurs an odd number of times in the list, not both.
pub proof fn lemma_toggled_all_contains(marks: Set<usize>, offsets: Seq<usize>, offset: usize)
    ensures
        toggled_all(marks, offsets).contains(offset) == (marks.contains(offset) != occurs_oddly(
            offsets,
            offset,
        )),
    decreases offsets.len(),
{
    if offsets.len() > 0 {
        lemma_toggled_all_contains(marks, offsets.drop_last(), offset);
    }
}

/// Toggling the same list of offsets twice leaves the marks as they were.
pub proof fn lemma_toggled_all_twice(marks: Set<usize>, offsets: Seq<usize>)
    ensures
        toggled_all(toggled_all(marks, offsets), offsets) == marks,
{
    assert forall|offset: usize| #[trigger]
        toggled_all(toggled_all(marks, offsets), offsets).contains(offset) == marks.contains(offset) by {
        lemma_toggled_all_contains(marks, offsets, offset);
        lemma_toggled_all_contains(toggled_all(marks, offsets), offsets, offset);
    }
    assert(toggled_all(toggled_all(marks, offsets), offsets) =~= marks);
}

/// The first offset of every selection, the primary one first.
pub open spec fn lower_bounds(primary: Cursor, cursors: Seq<Cursor>) -> Seq<usize> {
    (seq![primary] + cursors).map_values(|cursor: Cursor| cursor.lower())
}

impl Buffer {
    /// What `toggle_mark` leaves, given the buffer before it.
    #[verifier::opaque]
    pub open spec fn toggle_mark_effect(before: Buffer, after: Buffer) -> bool {
        &&& (after == (Buffer { marks: after.marks, ..before }))
        &&& (after.marks@ == toggled_all(
            before.marks@,
            lower_bounds(before.primary_cursor, before.cursors@),
        ))
    }

    /// Flips a mark at the start of every selection: set where there was
    /// none, removed where there was one.
    pub fn toggle_mark(&mut self)
        ensures
            Self::toggle_mark_effect(*old(self), *final(self)),
    {
        proof {
            reveal(Buffer::toggle_mark_effect);
        }
        let ghost offsets = lower_bounds(self.primary_cursor, self.cursors@);
        let first = self.primary_cursor.lower_bound();
        if !self.marks.insert(first) {
            self.marks.remove(&first);
        }
        assert(offsets.take(1).drop_last() =~= Seq::<usize>::empty());
        assert(offsets.take(1).last() == first);
        assert(toggled_all(old(self).marks@, offsets.take(1).drop_last()) == old(self).marks@);
        assert(self.marks@ =~= toggled(old(self).marks@, first));
        assert(self.marks@ == toggled_all(old(self).marks@, offsets.take(1)));
        let mut index: usize = 0;
        while index < self.cursors.len()
            invariant
                index <= self.cursors@.len(),
                *self == (Buffer { marks: self.marks, ..*old(self) }),
                offsets == lower_bounds(self.primary_cursor, self.cursors@),
                self.marks@ == toggled_all(old(self).marks@, offsets.take(index + 1)),
            decreases self.cursors@.len() - index,
        {
            let offset = self.cursors[index].lower_bound();
            if !self.marks.insert(offset) {
                self.marks.remove(&offset);
            }
            assert(offsets.take(index + 2).drop_last() =~= offsets.take(index + 1));
            assert(offsets.take(index + 2).last() == offset);
            index = index + 1;
        }
        assert(offsets.take(index + 1) =~= offsets);
    }

    /// The marks in ascending order.
    pub fn sorted_marks(&self) -> (sorted: Vec<usize>)
        ensures
            strictly_increasing(sorted@),
            forall|offset: usize| sorted@.contains(offset) <==> self.marks@.contains(offset),
    {
        let mut sorted: Vec<usize> = Vec::new();
        for mark in iter: self.marks.iter()
            invariant
                sorted@ == iter.seq().take(iter.index() as int).unref(),
                iter.seq().unref().to_set() == self.marks@,
                iter.seq().unref().no_duplicates(),
                iter.index() == iter.seq().len() ==> sorted@.to_set() == self.marks@
                    && sorted@.no_duplicates(),
        {
            sorted.push(*mark);
            assert(iter.seq().take(iter.index() + 1).unref() =~= sorted@);
            assert(iter.index() + 1 == iter.seq().len() ==> iter.seq().take(iter.index() + 1)
                =~= iter.seq());
        }
        proof {
            assert(sorted@.to_set() == self.marks@);
            assert(sorted@.no_duplicates());
        }
        let ghost unsorted = sorted@;
        sort_offsets(&mut sorted);
        proof {
            lemma_same_multiset(unsorted, sorted@);
            assert forall|offset: usize| sorted@.contains(offset) <==> self.marks@.contains(offset) by {
                assert(unsorted.contains(offset) <==> unsorted.to_set().contains(offset));
            }
        }
        sorted
    }
}

/// Toggling marks twice with the same selections leaves the marks as they
/// were, and nothing else changes.
pub proof fn lemma_toggle_mark_twice(first: Buffer, second: Buffer, third: Buffer)
    requires
        Buffer::toggle_mark_effect(first, second),
        Buffer::toggle_mark_effect(second, third),
    ensures
        third.marks@ == first.marks@,
        third == (Buffer { marks: third.marks, ..first }),
{
    reveal(Buffer::toggle_mark_effect);
    lemma_toggled_all_twice(first.marks@, lower_bounds(first.primary_cursor, first.cursors@));
}

/// How many selections of the list start (have their first byte) at `offset`.
pub open spec fn selections_starting_at(cursors: Seq<Cursor>, offset: usize) -> nat
    decreases cursors.len(),
{
    if cursors.len() == 0 {
        0
    } else {
        selections_starting_at(cursors.drop_last(), offset) + if cursors.last().lower() == offset {
            1nat
        } else {
            0nat
        }
    }
}

/// The first offsets of a list occur oddly often at `offset` exactly when
/// an odd number of its selections start there.
proof fn lemma_starts_occur_oddly(cursors: Seq<Cursor>, offset: usize)
    ensures
        occurs_oddly(cursors.map_values(|cursor: Cursor| cursor.lower()), offset) == (selections_starting_at(
            cursors,
            offset,
        ) % 2 == 1),
    decreases cursors.len(),
{
    if cursors.len() > 0 {
        lemma_starts_occur_oddly(cursors.drop_last(), offset);
        assert(cursors.map_values(|cursor: Cursor| cursor.lower()).drop_last() =~= cursors.drop_last().map_values(
            |cursor: Cursor| cursor.lower(),
        ));
    }
}

/// Toggling marks flips the mark at each offset where an odd number of
/// selections start (a selection starts at its lower end, whichever way it
/// points) and leaves every other offset as it was; the rest of the buffer
/// does not change.
pub proof fn lemma_toggle_mark_flips_where_selections_start(before: Buffer, after: Buffer)
    requires
        Buffer::toggle_mark_effect(before, after),
    ensures
        forall|offset: usize| #[trigger]
            after.marks@.contains(offset) == (before.marks@.contains(offset) != (selections_starting_at(
                seq![before.primary_cursor] + before.cursors@,
                offset,
            ) % 2 == 1)),
        after == (Buffer { marks: after.marks, ..before }),
{
    reveal(Buffer::toggle_mark_effect);
    let all = seq![before.primary_cursor] + before.cursors@;
    assert forall|offset: usize| #[trigger]
        after.marks@.contains(offset) == (before.marks@.contains(offset) != (selections_starting_at(all, offset) % 2
            == 1)) by {
        lemma_toggled_all_contains(before.marks@, lower_bounds(before.primary_cursor, before.cursors@), offset);
        lemma_starts_occur_oddly(all, offset);
    }
}

} // verus!
