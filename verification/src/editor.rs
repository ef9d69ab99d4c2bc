use vstd::prelude::*;
use crate::action::AppAction;
use crate::buffer::{Alert, Buffer};
use crate::buffer::actions::selected_bytes_of;
use crate::window_size::WindowSize;

verus! {

/// The editor: the open buffers, which one is shown, and the bytes last
/// yanked from each selection.
pub struct App {
    pub buffers: Vec<Buffer>,
    pub current_buffer_index: usize,
    pub window_size: WindowSize,
    pub should_quit: bool,
    /// The bytes the primary selection held when last yanked.
    pub primary_cursor_register: Vec<u8>,
    /// The bytes every other selection held when last yanked, in order.
    pub other_cursor_registers: Vec<Vec<u8>>,
}

/// Every buffer's contents are those last saved.
pub open spec fn all_saved(buffers: Seq<Buffer>) -> bool {
    forall|i: int| 0 <= i < buffers.len() ==> (#[trigger] buffers[i]).saved()
}

/// The bytes of the registers, as sequences.
pub open spec fn register_bytes(registers: Seq<Vec<u8>>) -> Seq<Seq<u8>> {
    registers.map_values(|register: Vec<u8>| register@)
}

/// The buffer after `index` among `count`, wrapping around to the first.
pub open spec fn next_index(index: int, count: int) -> int {
    if index == count - 1 {
        0
    } else {
        index + 1
    }
}

/// The buffer before `index` among `count`, wrapping around to the last.
pub open spec fn previous_index(index: int, count: int) -> int {
    if index == 0 {
        count - 1
    } else {
        index - 1
    }
}

/// Going to the next buffer and back, or back and then forward, returns to
/// the buffer one started from; both stay among the buffers.
pub proof fn lemma_next_and_previous_undo_each_other(index: int, count: int)
    requires
        0 <= index < count,
    ensures
        0 <= next_index(index, count) < count,
        0 <= previous_index(index, count) < count,
        previous_index(next_index(index, count), count) == index,
        next_index(previous_index(index, count), count) == index,
{
}

impl App {
    /// There is a buffer, and the current one is one of them.
    pub open spec fn wf(&self) -> bool {
        &&& self.buffers@.len() > 0
        &&& self.current_buffer_index < self.buffers@.len()
    }

    /// The buffer shown.
    pub open spec fn current(&self) -> Buffer {
        self.buffers@[self.current_buffer_index as int]
    }

    /// The editor showing the first of `buffers` on a terminal `rows` high,
    /// one row of which is the status line; none without buffers.
    pub fn new(buffers: Vec<Buffer>, rows: usize) -> (app: Option<App>)
        ensures
            app is None <==> buffers@.len() == 0,
            app matches Some(app) ==> {
                &&& app.wf()
                &&& app.buffers@ == buffers@
                &&& app.current_buffer_index == 0
                &&& app.window_size == (WindowSize { rows, covered_rows: 1 })
                &&& !app.should_quit
                &&& app.primary_cursor_register@.len() == 0
                &&& app.other_cursor_registers@.len() == 0
            },
    {
        if buffers.len() == 0 {
            return None;
        }
        Some(
            App {
                buffers,
                current_buffer_index: 0,
                window_size: WindowSize { rows, covered_rows: 1 },
                should_quit: false,
                primary_cursor_register: Vec::new(),
                other_cursor_registers: Vec::new(),
            },
        )
    }

    /// Shows `alert` in the current buffer.
    fn alert_current(&mut self, alert: Alert)
        requires
            old(self).wf(),
        ensures
            final(self).buffers@ == old(self).buffers@.update(
                old(self).current_buffer_index as int,
                Buffer { alert_message: Some(alert), ..old(self).current() },
            ),
            *final(self) == (App { buffers: final(self).buffers, ..*old(self) }),
    {
        let index = self.current_buffer_index;
        let mut buffer = self.buffers.remove(index);
        buffer.alert_message = Some(alert);
        self.buffers.insert(index, buffer);
        assert(self.buffers@ =~= old(self).buffers@.update(
            index as int,
            Buffer { alert_message: Some(alert), ..old(self).current() },
        ));
    }

    /// What `quit_if_saved` leaves, given the editor before it.
    pub open spec fn quit_if_saved_effect(before: App, after: App) -> bool {
        if all_saved(before.buffers@) {
            after == (App { should_quit: true, ..before })
        } else {
            &&& after.buffers@ == before.buffers@.update(
                before.current_buffer_index as int,
                Buffer { alert_message: Some(Alert::UnsavedChanges), ..before.current() },
            )
            &&& after == (App { buffers: after.buffers, ..before })
        }
    }

    /// Quits when every buffer is saved; otherwise the current buffer warns
    /// of unsaved changes.
    pub fn quit_if_saved(&mut self)
        requires
            old(self).wf(),
        ensures
            Self::quit_if_saved_effect(*old(self), *final(self)),
    {
        let mut index: usize = 0;
        while index < self.buffers.len()
            invariant
                *self == *old(self),
                self.wf(),
                index <= self.buffers@.len(),
                forall|i: int| 0 <= i < index ==> (#[trigger] self.buffers@[i]).saved(),
            decreases self.buffers@.len() - index,
        {
            if !self.buffers[index].all_changes_saved() {
                assert(!all_saved(old(self).buffers@));
                self.alert_current(Alert::UnsavedChanges);
                return;
            }
            index = index + 1;
        }
        self.quit();
    }

    pub fn quit(&mut self)
        ensures
            *final(self) == (App { should_quit: true, ..*old(self) }),
    {
        self.should_quit = true;
    }

    /// Shows the buffer before the current one, wrapping around to the last.
    pub fn previous_buffer(&mut self)
        requires
            old(self).wf(),
        ensures
            *final(self) == (App {
                current_buffer_index: previous_index(
                    old(self).current_buffer_index as int,
                    old(self).buffers@.len() as int,
                ) as usize,
                ..*old(self)
            }),
            final(self).wf(),
    {
        if self.current_buffer_index == 0 {
            self.current_buffer_index = self.buffers.len() - 1;
        } else {
            self.current_buffer_index = self.current_buffer_index - 1;
        }
    }

    /// Shows the buffer after the current one, wrapping around to the first.
    pub fn next_buffer(&mut self)
        requires
            old(self).wf(),
        ensures
            *final(self) == (App {
                current_buffer_index: next_index(
                    old(self).current_buffer_index as int,
                    old(self).buffers@.len() as int,
                ) as usize,
                ..*old(self)
            }),
            final(self).wf(),
    {
        if self.current_buffer_index == self.buffers.len() - 1 {
            self.current_buffer_index = 0;
        } else {
            self.current_buffer_index = self.current_buffer_index + 1;
        }
    }

    pub fn current_buffer(&self) -> (buffer: &Buffer)
        requires
            self.wf(),
        ensures
            *buffer == self.current(),
    {
        &self.buffers[self.current_buffer_index]
    }

    /// What `yank` leaves, given the editor before it.
    pub open spec fn yank_effect(before: App, after: App) -> bool {
        let buffer = before.current();
        &&& after.primary_cursor_register@ == selected_bytes_of(
            buffer.contents@,
            buffer.primary_cursor,
        )
        &&& register_bytes(after.other_cursor_registers@) == buffer.cursors@.map_values(
            |cursor| selected_bytes_of(buffer.contents@, cursor),
        )
        &&& after.buffers@ == before.buffers@.update(
            before.current_buffer_index as int,
            Buffer { alert_message: Some(Alert::Yanked((buffer.cursors@.len() + 1) as usize)), ..buffer },
        )
        &&& after == (App {
            buffers: after.buffers,
            primary_cursor_register: after.primary_cursor_register,
            other_cursor_registers: after.other_cursor_registers,
            ..before
        })
    }

    /// Copies the bytes of every selection of the current buffer into the
    /// registers, and tells how many selections were yanked.
    pub fn yank(&mut self)
        requires
            old(self).wf(),
            old(self).current().cursors_in_bounds(),
            old(self).current().contents@.len() > 0,
            old(self).current().cursors@.len() < usize::MAX,
        ensures
            Self::yank_effect(*old(self), *final(self)),
    {
        let buffer = &self.buffers[self.current_buffer_index];
        let primary = buffer.selected_bytes(buffer.primary_cursor);
        let mut others: Vec<Vec<u8>> = Vec::new();
        let mut index: usize = 0;
        while index < buffer.cursors.len()
            invariant
                *buffer == old(self).current(),
                buffer.cursors_in_bounds(),
                buffer.contents@.len() > 0,
                index <= buffer.cursors@.len(),
                register_bytes(others@) == buffer.cursors@.take(index as int).map_values(
                    |cursor| selected_bytes_of(buffer.contents@, cursor),
                ),
            decreases buffer.cursors@.len() - index,
        {
            assert(buffer.cursors@[index as int].within(buffer.max_index()));
            let bytes = buffer.selected_bytes(buffer.cursors[index]);
            let ghost earlier = others@;
            others.push(bytes);
            assert(register_bytes(others@) =~= register_bytes(earlier).push(bytes@));
            assert(buffer.cursors@.take(index + 1) =~= buffer.cursors@.take(index as int).push(
                buffer.cursors@[index as int],
            ));
            assert(register_bytes(others@) =~= buffer.cursors@.take(index + 1).map_values(
                |cursor| selected_bytes_of(buffer.contents@, cursor),
            ));
            index = index + 1;
        }
        assert(buffer.cursors@.take(index as int) =~= buffer.cursors@);
        let count = buffer.cursors.len() + 1;
        self.primary_cursor_register = primary;
        self.other_cursor_registers = others;
        self.alert_current(Alert::Yanked(count));
    }

    /// Runs an editor command. Yanking needs a current buffer with contents.
    pub fn execute(&mut self, action: AppAction)
        requires
            old(self).wf(),
            action == AppAction::Yank ==> {
                &&& old(self).current().cursors_in_bounds()
                &&& old(self).current().contents@.len() > 0
                &&& old(self).current().cursors@.len() < usize::MAX
            },
        ensures
            final(self).wf(),
            action == AppAction::Quit ==> *final(self) == (App { should_quit: true, ..*old(self) }),
            action == AppAction::QuitIfSaved ==> Self::quit_if_saved_effect(*old(self), *final(self)),
            action == AppAction::Yank ==> Self::yank_effect(*old(self), *final(self)),
            action == AppAction::PreviousBuffer ==> *final(self) == (App {
                current_buffer_index: previous_index(
                    old(self).current_buffer_index as int,
                    old(self).buffers@.len() as int,
                ) as usize,
                ..*old(self)
            }),
            action == AppAction::NextBuffer ==> *final(self) == (App {
                current_buffer_index: next_index(
                    old(self).current_buffer_index as int,
                    old(self).buffers@.len() as int,
                ) as usize,
                ..*old(self)
            }),
    {
        match action {
            AppAction::QuitIfSaved => self.quit_if_saved(),
            AppAction::Quit => self.quit(),
            AppAction::PreviousBuffer => self.previous_buffer(),
            AppAction::NextBuffer => self.next_buffer(),
            AppAction::Yank => self.yank(),
        }
    }
}

} // verus!
