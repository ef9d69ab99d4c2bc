use vstd::prelude::*;
use crate::cursor::Cursor;

verus! {

/// A change to a buffer's contents, with what is needed to take it back.
pub enum EditAction {
    /// Remove every selected byte.
    Delete {
        primary_cursor: Cursor,
        cursors: Vec<Cursor>,
        /// The bytes under `primary_cursor` before the edit.
        primary_old_data: Vec<u8>,
        /// The bytes under each of `cursors` before the edit.
        old_data: Vec<Vec<u8>>,
    },
    /// Overwrite every selected byte with `new_byte`.
    Replace {
        primary_cursor: Cursor,
        cursors: Vec<Cursor>,
        primary_old_data: Vec<u8>,
        old_data: Vec<Vec<u8>>,
        new_byte: u8,
    },
}

/// The selections one edit works on, and what was under them.
impl EditAction {
    pub open spec fn primary(&self) -> Cursor {
        match self {
            EditAction::Delete { primary_cursor, .. } => *primary_cursor,
            EditAction::Replace { primary_cursor, .. } => *primary_cursor,
        }
    }

    pub open spec fn others(&self) -> Seq<Cursor> {
        match self {
            EditAction::Delete { cursors, .. } => cursors@,
            EditAction::Replace { cursors, .. } => cursors@,
        }
    }

    pub open spec fn primary_data(&self) -> Seq<u8> {
        match self {
            EditAction::Delete { primary_old_data, .. } => primary_old_data@,
            EditAction::Replace { primary_old_data, .. } => primary_old_data@,
        }
    }

    pub open spec fn other_data(&self) -> Seq<Seq<u8>> {
        match self {
            EditAction::Delete { old_data, .. } => old_data@.map_values(|data: Vec<u8>| data@),
            EditAction::Replace { old_data, .. } => old_data@.map_values(|data: Vec<u8>| data@),
        }
    }

    /// Each recorded piece of data is as long as its selection, and no
    /// selection reaches the last possible offset.
    pub open spec fn well_formed(&self) -> bool {
        &&& self.primary().upper() < usize::MAX
        &&& self.primary_data().len() == self.primary().upper() - self.primary().lower() + 1
        &&& self.other_data().len() == self.others().len()
        &&& forall|k: int|
            0 <= k < self.others().len() ==> {
                &&& (#[trigger] self.others()[k]).upper() < usize::MAX
                &&& self.other_data()[k].len() == self.others()[k].upper() - self.others()[k].lower() + 1
            }
    }

    /// The edit was recorded on `contents`: its selections lie inside them
    /// and its data is what was under them.
    pub open spec fn recorded_from(&self, contents: Seq<u8>) -> bool {
        &&& self.well_formed()
        &&& self.primary().upper() < contents.len()
        &&& self.primary_data() == contents.subrange(
            self.primary().lower() as int,
            self.primary().upper() + 1,
        )
        &&& forall|k: int|
            0 <= k < self.others().len() ==> {
                &&& (#[trigger] self.others()[k]).upper() < contents.len()
                &&& self.other_data()[k] == contents.subrange(
                    self.others()[k].lower() as int,
                    self.others()[k].upper() + 1,
                )
            }
    }

    pub fn primary_cursor(&self) -> (cursor: Cursor)
        ensures
            cursor == self.primary(),
    {
        match self {
            EditAction::Delete { primary_cursor, .. } => *primary_cursor,
            EditAction::Replace { primary_cursor, .. } => *primary_cursor,
        }
    }

    pub fn cursors(&self) -> (cursors: &Vec<Cursor>)
        ensures
            cursors@ == self.others(),
    {
        match self {
            EditAction::Delete { cursors, .. } => cursors,
            EditAction::Replace { cursors, .. } => cursors,
        }
    }

    pub fn primary_old_data(&self) -> (data: &Vec<u8>)
        ensures
            data@ == self.primary_data(),
    {
        match self {
            EditAction::Delete { primary_old_data, .. } => primary_old_data,
            EditAction::Replace { primary_old_data, .. } => primary_old_data,
        }
    }

    pub fn old_data(&self) -> (data: &Vec<Vec<u8>>)
        ensures
            data@.map_values(|d: Vec<u8>| d@) == self.other_data(),
    {
        match self {
            EditAction::Delete { old_data, .. } => old_data,
            EditAction::Replace { old_data, .. } => old_data,
        }
    }
}

} // verus!
