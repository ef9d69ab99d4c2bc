use vstd::prelude::*;
use crate::action::BufferAction;
use crate::buffer::{Buffer, InspectionStatus};
use crate::buffer::edits::lemma_history_consistent_keeps;
use crate::buffer::inspect::inspected;
use crate::buffer::actions::marks_within;
use crate::buffer::screen::within_contents;
use crate::window_size::WindowSize;

verus! {

/// What running `action` on `before` leaves: the effect of the command's
/// method.
pub open spec fn executed(action: BufferAction, before: Buffer, after: Buffer, window_size: WindowSize) -> bool {
    match action {
        BufferAction::NormalMode => Buffer::normal_mode_effect(before, after),
        BufferAction::SelectMode => Buffer::select_mode_effect(before, after),
        BufferAction::Goto => Buffer::goto_effect(before, after),
        BufferAction::View => Buffer::view_effect(before, after),
        BufferAction::Replace => Buffer::replace_effect(before, after),
        BufferAction::Space => Buffer::space_effect(before, after),
        BufferAction::Repeat => Buffer::repeat_effect(before, after),
        BufferAction::To => Buffer::to_effect(before, after),
        BufferAction::ScrollDown => Buffer::scroll_down_effect(before, after, window_size),
        BufferAction::ScrollUp => Buffer::scroll_up_effect(before, after, window_size),
        BufferAction::PageCursorHalfDown => Buffer::page_cursor_half_down_effect(before, after, window_size),
        BufferAction::PageCursorHalfUp => Buffer::page_cursor_half_up_effect(before, after, window_size),
        BufferAction::PageDown => Buffer::page_down_effect(before, after, window_size),
        BufferAction::PageUp => Buffer::page_up_effect(before, after, window_size),
        BufferAction::CollapseSelection => Buffer::collapse_selection_effect(before, after),
        BufferAction::FlipSelections => Buffer::flip_selection_effect(before, after, window_size),
        BufferAction::Delete => Buffer::delete_effect(before, after, window_size),
        BufferAction::Undo => Buffer::undo_effect(before, after, window_size),
        BufferAction::Redo => Buffer::redo_effect(before, after, window_size),
        BufferAction::Save => Buffer::save_effect(before, after),
        BufferAction::CopySelectionOnNextLine => Buffer::copy_selection_on_next_line_effect(
            before,
            after,
            window_size,
        ),
        BufferAction::RotateSelectionsBackward => Buffer::rotate_selections_backward_effect(
            before,
            after,
            window_size,
        ),
        BufferAction::RotateSelectionsForward => Buffer::rotate_selections_forward_effect(
            before,
            after,
            window_size,
        ),
        BufferAction::KeepPrimarySelection => Buffer::keep_primary_selection_effect(before, after),
        BufferAction::RemovePrimarySelection => Buffer::remove_primary_selection_effect(before, after),
        BufferAction::SplitSelectionsInto1s => Buffer::split_selections_into_size_effect(before, after, 1, window_size),
        BufferAction::SplitSelectionsInto2s => Buffer::split_selections_into_size_effect(before, after, 2, window_size),
        BufferAction::SplitSelectionsInto3s => Buffer::split_selections_into_size_effect(before, after, 3, window_size),
        BufferAction::SplitSelectionsInto4s => Buffer::split_selections_into_size_effect(before, after, 4, window_size),
        BufferAction::SplitSelectionsInto5s => Buffer::split_selections_into_size_effect(before, after, 5, window_size),
        BufferAction::SplitSelectionsInto6s => Buffer::split_selections_into_size_effect(before, after, 6, window_size),
        BufferAction::SplitSelectionsInto7s => Buffer::split_selections_into_size_effect(before, after, 7, window_size),
        BufferAction::SplitSelectionsInto8s => Buffer::split_selections_into_size_effect(before, after, 8, window_size),
        BufferAction::SplitSelectionsInto9s => Buffer::split_selections_into_size_effect(before, after, 9, window_size),
        BufferAction::JumpToSelectedOffset => Buffer::jump_to_selected_offset_effect(before, after, window_size),
        BufferAction::JumpToSelectedOffsetRelativeToMark => Buffer::jump_to_selected_offset_relative_to_mark_effect(
            before,
            after,
            window_size,
        ),
        BufferAction::ToggleMark => Buffer::toggle_mark_effect(before, after),
        BufferAction::AlignViewCenter => Buffer::align_view_center_effect(before, after, window_size),
        BufferAction::AlignViewBottom => Buffer::align_view_bottom_effect(before, after, window_size),
        BufferAction::AlignViewTop => Buffer::align_view_top_effect(before, after, window_size),
        BufferAction::FindTillMark => Buffer::till_mark_effect(before, after, false, window_size),
        BufferAction::FindTillNull => Buffer::till_null_effect(before, after, false, window_size),
        BufferAction::FindTillFF => Buffer::till_FF_effect(before, after, false, window_size),
        BufferAction::ExtendTillMark => Buffer::till_mark_effect(before, after, true, window_size),
        BufferAction::ExtendTillNull => Buffer::till_null_effect(before, after, true, window_size),
        BufferAction::ExtendTillFF => Buffer::till_FF_effect(before, after, true, window_size),
        BufferAction::InspectSelection => inspected(before, after, InspectionStatus::Normal, false),
        BufferAction::InspectSelectionColor => inspected(before, after, InspectionStatus::ColorsOnly, true),
    }
}

/// Whether running `action` on `before` reads the selected bytes, which an
/// empty buffer does not have: the jumps, and switching an inspection on.
pub open spec fn reads_selection(action: BufferAction, before: Buffer) -> bool {
    ||| action == BufferAction::JumpToSelectedOffset
    ||| action == BufferAction::JumpToSelectedOffsetRelativeToMark
    ||| action == BufferAction::InspectSelection && before.inspection_status != Some(InspectionStatus::Normal)
    ||| action == BufferAction::InspectSelectionColor && before.inspection_status != Some(
        InspectionStatus::ColorsOnly,
    )
}

/// The two commands that may leave the selections or the view outside the
/// contents: scrolling up from a view that runs past the end of the
/// contents, and moving to a mark that lies past the end.
pub open spec fn exempt_from_bounds(action: BufferAction, before: Buffer, window_size: WindowSize) -> bool {
    ||| action == BufferAction::ScrollUp && !within_contents(
        before.scroll_position as int,
        before.max_index() as int,
        window_size,
    )
    ||| (action == BufferAction::FindTillMark || action == BufferAction::ExtendTillMark) && !marks_within(
        before.marks@,
        before.max_index(),
    )
}

/// The commands after which the view may no longer show the primary head:
/// those that merge selections after moving them without scrolling to the
/// merged head (scrolling, paging, copying to the next line), removing the
/// primary selection (the next one may be off screen), and moving to a mark
/// that lies past the end of the contents.
pub open spec fn exempt_from_view(action: BufferAction, before: Buffer) -> bool {
    ||| action == BufferAction::ScrollDown
    ||| action == BufferAction::ScrollUp
    ||| action == BufferAction::PageDown
    ||| action == BufferAction::PageUp
    ||| action == BufferAction::PageCursorHalfDown
    ||| action == BufferAction::PageCursorHalfUp
    ||| action == BufferAction::CopySelectionOnNextLine
    ||| action == BufferAction::RemovePrimarySelection
    ||| (action == BufferAction::FindTillMark || action == BufferAction::ExtendTillMark) && !marks_within(
        before.marks@,
        before.max_index(),
    )
}

/// The parts that the proofs about every command are split into: a proof
/// over all commands at once is too large for the solver.
spec fn part_of(action: BufferAction) -> int {
    match action {
        BufferAction::NormalMode
        | BufferAction::SelectMode
        | BufferAction::Goto
        | BufferAction::View
        | BufferAction::Replace
        | BufferAction::Space
        | BufferAction::Repeat
        | BufferAction::To
        | BufferAction::ScrollDown
        | BufferAction::ScrollUp
        | BufferAction::PageCursorHalfDown
        | BufferAction::PageCursorHalfUp
        | BufferAction::PageDown
        | BufferAction::PageUp => 0,
        BufferAction::CollapseSelection
        | BufferAction::FlipSelections
        | BufferAction::Delete
        | BufferAction::Undo
        | BufferAction::Redo
        | BufferAction::Save
        | BufferAction::CopySelectionOnNextLine
        | BufferAction::RotateSelectionsBackward
        | BufferAction::RotateSelectionsForward
        | BufferAction::KeepPrimarySelection
        | BufferAction::RemovePrimarySelection => 1,
        BufferAction::SplitSelectionsInto1s
        | BufferAction::SplitSelectionsInto2s
        | BufferAction::SplitSelectionsInto3s
        | BufferAction::SplitSelectionsInto4s
        | BufferAction::SplitSelectionsInto5s
        | BufferAction::SplitSelectionsInto6s
        | BufferAction::SplitSelectionsInto7s
        | BufferAction::SplitSelectionsInto8s
        | BufferAction::SplitSelectionsInto9s
        | BufferAction::JumpToSelectedOffset
        | BufferAction::JumpToSelectedOffsetRelativeToMark => 2,
        BufferAction::ToggleMark
        | BufferAction::AlignViewCenter
        | BufferAction::AlignViewBottom
        | BufferAction::AlignViewTop
        | BufferAction::InspectSelection
        | BufferAction::InspectSelectionColor => 3,
        BufferAction::FindTillMark | BufferAction::ExtendTillMark => 4,
        BufferAction::FindTillNull | BufferAction::ExtendTillNull => 5,
        BufferAction::FindTillFF | BufferAction::ExtendTillFF => 6,
    }
}

/// Part of `lemma_executed_keeps_sizes`: the mode and partial-command keys, scrolling and paging.
#[verifier::spinoff_prover]
proof fn lemma_keeps_sizes_modes_and_scrolling(action: BufferAction, before: Buffer, after: Buffer, window_size: WindowSize)
    requires
        before.sizes_ok(window_size),
        executed(action, before, after, window_size),
        !exempt_from_bounds(action, before, window_size),
        part_of(action) == 0,
    ensures
        after.sizes_ok(window_size),
{
    reveal(Buffer::normal_mode_effect);
    reveal(Buffer::select_mode_effect);
    reveal(Buffer::goto_effect);
    reveal(Buffer::view_effect);
    reveal(Buffer::replace_effect);
    reveal(Buffer::space_effect);
    reveal(Buffer::repeat_effect);
    reveal(Buffer::to_effect);
    reveal(Buffer::scroll_down_effect);
    reveal(Buffer::scroll_up_effect);
    reveal(Buffer::page_cursor_half_down_effect);
    reveal(Buffer::page_cursor_half_up_effect);
    reveal(Buffer::page_down_effect);
    reveal(Buffer::page_up_effect);
}

/// Part of `lemma_executed_keeps_sizes`: collapsing, flipping, rotating, keeping or removing
/// selections, and the edits.
#[verifier::spinoff_prover]
proof fn lemma_keeps_sizes_selections_and_edits(action: BufferAction, before: Buffer, after: Buffer, window_size: WindowSize)
    requires
        before.sizes_ok(window_size),
        executed(action, before, after, window_size),
        !exempt_from_bounds(action, before, window_size),
        part_of(action) == 1,
    ensures
        after.sizes_ok(window_size),
{
    reveal(Buffer::collapse_selection_effect);
    reveal(Buffer::flip_selection_effect);
    reveal(Buffer::delete_effect);
    reveal(Buffer::undo_effect);
    reveal(Buffer::redo_effect);
    reveal(Buffer::save_effect);
    reveal(Buffer::copy_selection_on_next_line_effect);
    reveal(Buffer::rotate_selections_backward_effect);
    reveal(Buffer::rotate_selections_forward_effect);
    reveal(Buffer::keep_primary_selection_effect);
    reveal(Buffer::remove_primary_selection_effect);
    if action == BufferAction::CollapseSelection {
        let max = before.max_index();
        assert forall|k: int| 0 <= k < after.cursors@.len() implies (#[trigger] after.cursors@[k]).within(max) by {
            assert(before.cursors@[k].within(max));
        }
    }
}

/// Part of `lemma_executed_keeps_sizes`: splitting selections and jumping to offsets.
#[verifier::spinoff_prover]
proof fn lemma_keeps_sizes_splits_and_jumps(action: BufferAction, before: Buffer, after: Buffer, window_size: WindowSize)
    requires
        before.sizes_ok(window_size),
        executed(action, before, after, window_size),
        !exempt_from_bounds(action, before, window_size),
        part_of(action) == 2,
    ensures
        after.sizes_ok(window_size),
{
    reveal(Buffer::split_selections_into_size_effect);
    reveal(Buffer::jump_to_selected_offset_effect);
    reveal(Buffer::jump_to_selected_offset_relative_to_mark_effect);
}

/// Part of `lemma_executed_keeps_sizes`: marks, aligning the view and inspecting.
#[verifier::spinoff_prover]
proof fn lemma_keeps_sizes_marks_views_and_inspection(action: BufferAction, before: Buffer, after: Buffer, window_size: WindowSize)
    requires
        before.sizes_ok(window_size),
        executed(action, before, after, window_size),
        !exempt_from_bounds(action, before, window_size),
        part_of(action) == 3,
    ensures
        after.sizes_ok(window_size),
{
    reveal(Buffer::toggle_mark_effect);
    reveal(Buffer::align_view_center_effect);
    reveal(Buffer::align_view_bottom_effect);
    reveal(Buffer::align_view_top_effect);
    reveal(inspected);
}

/// Part of `lemma_executed_keeps_sizes`: moving to a mark.
#[verifier::spinoff_prover]
proof fn lemma_keeps_sizes_till_mark(action: BufferAction, before: Buffer, after: Buffer, window_size: WindowSize)
    requires
        before.sizes_ok(window_size),
        executed(action, before, after, window_size),
        !exempt_from_bounds(action, before, window_size),
        part_of(action) == 4,
    ensures
        after.sizes_ok(window_size),
{
    assert(marks_within(before.marks@, before.max_index()));
    let extend = action == BufferAction::ExtendTillMark;
    assert(Buffer::till_mark_effect(before, after, extend, window_size));
    reveal(Buffer::till_mark_effect);
}

/// Part of `lemma_executed_keeps_sizes`: moving to a NUL byte.
#[verifier::spinoff_prover]
proof fn lemma_keeps_sizes_till_null(action: BufferAction, before: Buffer, after: Buffer, window_size: WindowSize)
    requires
        before.sizes_ok(window_size),
        executed(action, before, after, window_size),
        !exempt_from_bounds(action, before, window_size),
        part_of(action) == 5,
    ensures
        after.sizes_ok(window_size),
{
    reveal(Buffer::till_null_effect);
}

/// Part of `lemma_executed_keeps_sizes`: moving to an FF byte.
#[verifier::spinoff_prover]
proof fn lemma_keeps_sizes_till_ff(action: BufferAction, before: Buffer, after: Buffer, window_size: WindowSize)
    requires
        before.sizes_ok(window_size),
        executed(action, before, after, window_size),
        !exempt_from_bounds(action, before, window_size),
        part_of(action) == 6,
    ensures
        after.sizes_ok(window_size),
{
    reveal(Buffer::till_FF_effect);
}

/// Every command keeps the buffer's sizes and selections in bounds, but for
/// the two exceptions of `exempt_from_bounds`.
pub proof fn lemma_executed_keeps_sizes(action: BufferAction, before: Buffer, after: Buffer, window_size: WindowSize)
    requires
        before.sizes_ok(window_size),
        executed(action, before, after, window_size),
        !exempt_from_bounds(action, before, window_size),
    ensures
        after.sizes_ok(window_size),
{
    if part_of(action) == 0 {
        lemma_keeps_sizes_modes_and_scrolling(action, before, after, window_size);
    } else if part_of(action) == 1 {
        lemma_keeps_sizes_selections_and_edits(action, before, after, window_size);
    } else if part_of(action) == 2 {
        lemma_keeps_sizes_splits_and_jumps(action, before, after, window_size);
    } else if part_of(action) == 3 {
        lemma_keeps_sizes_marks_views_and_inspection(action, before, after, window_size);
    } else if part_of(action) == 4 {
        lemma_keeps_sizes_till_mark(action, before, after, window_size);
    } else if part_of(action) == 5 {
        lemma_keeps_sizes_till_null(action, before, after, window_size);
    } else {
        lemma_keeps_sizes_till_ff(action, before, after, window_size);
    }
}

/// Part of `lemma_executed_keeps_whole_lines`: the mode and partial-command keys, scrolling and
/// paging.
#[verifier::spinoff_prover]
proof fn lemma_keeps_whole_lines_modes_and_scrolling(action: BufferAction, before: Buffer, after: Buffer, window_size: WindowSize)
    requires
        executed(action, before, after, window_size),
        before.scroll_position % 16 == 0,
        part_of(action) == 0,
    ensures
        after.scroll_position % 16 == 0,
{
    reveal(Buffer::normal_mode_effect);
    reveal(Buffer::select_mode_effect);
    reveal(Buffer::goto_effect);
    reveal(Buffer::view_effect);
    reveal(Buffer::replace_effect);
    reveal(Buffer::space_effect);
    reveal(Buffer::repeat_effect);
    reveal(Buffer::to_effect);
    reveal(Buffer::scroll_down_effect);
    reveal(Buffer::scroll_up_effect);
    reveal(Buffer::page_cursor_half_down_effect);
    reveal(Buffer::page_cursor_half_up_effect);
    reveal(Buffer::page_down_effect);
    reveal(Buffer::page_up_effect);
}

/// Part of `lemma_executed_keeps_whole_lines`: collapsing, flipping, rotating, keeping or removing
/// selections, and the edits.
#[verifier::spinoff_prover]
proof fn lemma_keeps_whole_lines_selections_and_edits(action: BufferAction, before: Buffer, after: Buffer, window_size: WindowSize)
    requires
        executed(action, before, after, window_size),
        before.scroll_position % 16 == 0,
        part_of(action) == 1,
    ensures
        after.scroll_position % 16 == 0,
{
    reveal(Buffer::collapse_selection_effect);
    reveal(Buffer::flip_selection_effect);
    reveal(Buffer::delete_effect);
    reveal(Buffer::undo_effect);
    reveal(Buffer::redo_effect);
    reveal(Buffer::save_effect);
    reveal(Buffer::copy_selection_on_next_line_effect);
    reveal(Buffer::rotate_selections_backward_effect);
    reveal(Buffer::rotate_selections_forward_effect);
    reveal(Buffer::keep_primary_selection_effect);
    reveal(Buffer::remove_primary_selection_effect);
}

/// Part of `lemma_executed_keeps_whole_lines`: splitting selections and jumping to offsets.
#[verifier::spinoff_prover]
proof fn lemma_keeps_whole_lines_splits_and_jumps(action: BufferAction, before: Buffer, after: Buffer, window_size: WindowSize)
    requires
        executed(action, before, after, window_size),
        before.scroll_position % 16 == 0,
        part_of(action) == 2,
    ensures
        after.scroll_position % 16 == 0,
{
    reveal(Buffer::split_selections_into_size_effect);
    reveal(Buffer::jump_to_selected_offset_effect);
    reveal(Buffer::jump_to_selected_offset_relative_to_mark_effect);
}

/// Part of `lemma_executed_keeps_whole_lines`: marks, aligning the view and inspecting.
#[verifier::spinoff_prover]
proof fn lemma_keeps_whole_lines_marks_views_and_inspection(action: BufferAction, before: Buffer, after: Buffer, window_size: WindowSize)
    requires
        executed(action, before, after, window_size),
        before.scroll_position % 16 == 0,
        part_of(action) == 3,
    ensures
        after.scroll_position % 16 == 0,
{
    reveal(Buffer::toggle_mark_effect);
    reveal(Buffer::align_view_center_effect);
    reveal(Buffer::align_view_bottom_effect);
    reveal(Buffer::align_view_top_effect);
    reveal(inspected);
}

/// Part of `lemma_executed_keeps_whole_lines`: moving to a mark.
#[verifier::spinoff_prover]
proof fn lemma_keeps_whole_lines_till_mark(action: BufferAction, before: Buffer, after: Buffer, window_size: WindowSize)
    requires
        executed(action, before, after, window_size),
        before.scroll_position % 16 == 0,
        part_of(action) == 4,
    ensures
        after.scroll_position % 16 == 0,
{
    let extend = action == BufferAction::ExtendTillMark;
    assert(Buffer::till_mark_effect(before, after, extend, window_size));
    reveal(Buffer::till_mark_effect);
}

/// Part of `lemma_executed_keeps_whole_lines`: moving to a NUL byte.
#[verifier::spinoff_prover]
proof fn lemma_keeps_whole_lines_till_null(action: BufferAction, before: Buffer, after: Buffer, window_size: WindowSize)
    requires
        executed(action, before, after, window_size),
        before.scroll_position % 16 == 0,
        part_of(action) == 5,
    ensures
        after.scroll_position % 16 == 0,
{
    reveal(Buffer::till_null_effect);
}

/// Part of `lemma_executed_keeps_whole_lines`: moving to an FF byte.
#[verifier::spinoff_prover]
proof fn lemma_keeps_whole_lines_till_ff(action: BufferAction, before: Buffer, after: Buffer, window_size: WindowSize)
    requires
        executed(action, before, after, window_size),
        before.scroll_position % 16 == 0,
        part_of(action) == 6,
    ensures
        after.scroll_position % 16 == 0,
{
    reveal(Buffer::till_FF_effect);
}

/// Every command keeps the view starting at a whole line.
pub proof fn lemma_executed_keeps_whole_lines(action: BufferAction, before: Buffer, after: Buffer, window_size: WindowSize)
    requires
        executed(action, before, after, window_size),
        before.scroll_position % 16 == 0,
    ensures
        after.scroll_position % 16 == 0,
{
    if part_of(action) == 0 {
        lemma_keeps_whole_lines_modes_and_scrolling(action, before, after, window_size);
    } else if part_of(action) == 1 {
        lemma_keeps_whole_lines_selections_and_edits(action, before, after, window_size);
    } else if part_of(action) == 2 {
        lemma_keeps_whole_lines_splits_and_jumps(action, before, after, window_size);
    } else if part_of(action) == 3 {
        lemma_keeps_whole_lines_marks_views_and_inspection(action, before, after, window_size);
    } else if part_of(action) == 4 {
        lemma_keeps_whole_lines_till_mark(action, before, after, window_size);
    } else if part_of(action) == 5 {
        lemma_keeps_whole_lines_till_null(action, before, after, window_size);
    } else {
        lemma_keeps_whole_lines_till_ff(action, before, after, window_size);
    }
}

/// Part of `lemma_executed_keeps_view`: the mode and partial-command keys, scrolling and paging.
#[verifier::spinoff_prover]
proof fn lemma_keeps_view_modes_and_scrolling(action: BufferAction, before: Buffer, after: Buffer, window_size: WindowSize)
    requires
        before.wf(window_size),
        executed(action, before, after, window_size),
        !exempt_from_view(action, before),
        part_of(action) == 0,
    ensures
        after.wf(window_size),
{
    reveal(Buffer::normal_mode_effect);
    reveal(Buffer::select_mode_effect);
    reveal(Buffer::goto_effect);
    reveal(Buffer::view_effect);
    reveal(Buffer::replace_effect);
    reveal(Buffer::space_effect);
    reveal(Buffer::repeat_effect);
    reveal(Buffer::to_effect);
    reveal(Buffer::scroll_down_effect);
    reveal(Buffer::scroll_up_effect);
    reveal(Buffer::page_cursor_half_down_effect);
    reveal(Buffer::page_cursor_half_up_effect);
    reveal(Buffer::page_down_effect);
    reveal(Buffer::page_up_effect);
}

/// Part of `lemma_executed_keeps_view`: collapsing, flipping, rotating, keeping or removing
/// selections, and the edits.
#[verifier::spinoff_prover]
proof fn lemma_keeps_view_selections_and_edits(action: BufferAction, before: Buffer, after: Buffer, window_size: WindowSize)
    requires
        before.wf(window_size),
        executed(action, before, after, window_size),
        !exempt_from_view(action, before),
        part_of(action) == 1,
    ensures
        after.wf(window_size),
{
    reveal(Buffer::collapse_selection_effect);
    reveal(Buffer::flip_selection_effect);
    reveal(Buffer::delete_effect);
    reveal(Buffer::undo_effect);
    reveal(Buffer::redo_effect);
    reveal(Buffer::save_effect);
    reveal(Buffer::copy_selection_on_next_line_effect);
    reveal(Buffer::rotate_selections_backward_effect);
    reveal(Buffer::rotate_selections_forward_effect);
    reveal(Buffer::keep_primary_selection_effect);
    reveal(Buffer::remove_primary_selection_effect);
    if action == BufferAction::CollapseSelection {
        let max = before.max_index();
        assert forall|k: int| 0 <= k < after.cursors@.len() implies (#[trigger] after.cursors@[k]).within(max) by {
            assert(before.cursors@[k].within(max));
        }
    }
}

/// Part of `lemma_executed_keeps_view`: splitting selections and jumping to offsets.
#[verifier::spinoff_prover]
proof fn lemma_keeps_view_splits_and_jumps(action: BufferAction, before: Buffer, after: Buffer, window_size: WindowSize)
    requires
        before.wf(window_size),
        executed(action, before, after, window_size),
        !exempt_from_view(action, before),
        part_of(action) == 2,
    ensures
        after.wf(window_size),
{
    reveal(Buffer::split_selections_into_size_effect);
    reveal(Buffer::jump_to_selected_offset_effect);
    reveal(Buffer::jump_to_selected_offset_relative_to_mark_effect);
}

/// Part of `lemma_executed_keeps_view`: marks, aligning the view and inspecting.
#[verifier::spinoff_prover]
proof fn lemma_keeps_view_marks_views_and_inspection(action: BufferAction, before: Buffer, after: Buffer, window_size: WindowSize)
    requires
        before.wf(window_size),
        executed(action, before, after, window_size),
        !exempt_from_view(action, before),
        part_of(action) == 3,
    ensures
        after.wf(window_size),
{
    reveal(Buffer::toggle_mark_effect);
    reveal(Buffer::align_view_center_effect);
    reveal(Buffer::align_view_bottom_effect);
    reveal(Buffer::align_view_top_effect);
    reveal(inspected);
}

/// Part of `lemma_executed_keeps_view`: moving to a mark.
#[verifier::spinoff_prover]
proof fn lemma_keeps_view_till_mark(action: BufferAction, before: Buffer, after: Buffer, window_size: WindowSize)
    requires
        before.wf(window_size),
        executed(action, before, after, window_size),
        !exempt_from_view(action, before),
        part_of(action) == 4,
    ensures
        after.wf(window_size),
{
    let extend = action == BufferAction::ExtendTillMark;
    assert(Buffer::till_mark_effect(before, after, extend, window_size));
    reveal(Buffer::till_mark_effect);
}

/// Part of `lemma_executed_keeps_view`: moving to a NUL byte.
#[verifier::spinoff_prover]
proof fn lemma_keeps_view_till_null(action: BufferAction, before: Buffer, after: Buffer, window_size: WindowSize)
    requires
        before.wf(window_size),
        executed(action, before, after, window_size),
        !exempt_from_view(action, before),
        part_of(action) == 5,
    ensures
        after.wf(window_size),
{
    reveal(Buffer::till_null_effect);
}

/// Part of `lemma_executed_keeps_view`: moving to an FF byte.
#[verifier::spinoff_prover]
proof fn lemma_keeps_view_till_ff(action: BufferAction, before: Buffer, after: Buffer, window_size: WindowSize)
    requires
        before.wf(window_size),
        executed(action, before, after, window_size),
        !exempt_from_view(action, before),
        part_of(action) == 6,
    ensures
        after.wf(window_size),
{
    reveal(Buffer::till_FF_effect);
}

/// Every command but those of `exempt_from_view` keeps the view inside the
/// contents, at a whole line and showing the primary head.
pub proof fn lemma_executed_keeps_view(action: BufferAction, before: Buffer, after: Buffer, window_size: WindowSize)
    requires
        before.wf(window_size),
        executed(action, before, after, window_size),
        !exempt_from_view(action, before),
    ensures
        after.wf(window_size),
{
    if part_of(action) == 0 {
        lemma_keeps_view_modes_and_scrolling(action, before, after, window_size);
    } else if part_of(action) == 1 {
        lemma_keeps_view_selections_and_edits(action, before, after, window_size);
    } else if part_of(action) == 2 {
        lemma_keeps_view_splits_and_jumps(action, before, after, window_size);
    } else if part_of(action) == 3 {
        lemma_keeps_view_marks_views_and_inspection(action, before, after, window_size);
    } else if part_of(action) == 4 {
        lemma_keeps_view_till_mark(action, before, after, window_size);
    } else if part_of(action) == 5 {
        lemma_keeps_view_till_null(action, before, after, window_size);
    } else {
        lemma_keeps_view_till_ff(action, before, after, window_size);
    }
}

impl Buffer {
    /// Runs a buffer command.
    pub fn execute(&mut self, action: BufferAction, window_size: WindowSize)
        requires
            old(self).sizes_ok(window_size),
            old(self).history_consistent(),
            reads_selection(action, *old(self)) ==> old(self).contents@.len() > 0,
        ensures
            executed(action, *old(self), *final(self), window_size),
            final(self).history_consistent(),
            !exempt_from_bounds(action, *old(self), window_size) ==> final(self).sizes_ok(window_size),
            old(self).scroll_position % 16 == 0 ==> final(self).scroll_position % 16 == 0,
            old(self).wf(window_size) && !exempt_from_view(action, *old(self)) ==> final(self).wf(window_size),
    {
        let ghost before = *self;
        match action {
            BufferAction::NormalMode => {
                self.normal_mode();
                proof {
                    reveal(Buffer::normal_mode_effect);
                    lemma_history_consistent_keeps(&before, self);
                }
            },
            BufferAction::SelectMode => {
                self.select_mode();
                proof {
                    reveal(Buffer::select_mode_effect);
                    lemma_history_consistent_keeps(&before, self);
                }
            },
            BufferAction::Goto => {
                self.goto();
                proof {
                    reveal(Buffer::goto_effect);
                    lemma_history_consistent_keeps(&before, self);
                }
            },
            BufferAction::View => {
                self.view();
                proof {
                    reveal(Buffer::view_effect);
                    lemma_history_consistent_keeps(&before, self);
                }
            },
            BufferAction::Replace => {
                self.replace();
                proof {
                    reveal(Buffer::replace_effect);
                    lemma_history_consistent_keeps(&before, self);
                }
            },
            BufferAction::Space => {
                self.space();
                proof {
                    reveal(Buffer::space_effect);
                    lemma_history_consistent_keeps(&before, self);
                }
            },
            BufferAction::Repeat => {
                self.repeat();
                proof {
                    reveal(Buffer::repeat_effect);
                    lemma_history_consistent_keeps(&before, self);
                }
            },
            BufferAction::To => {
                self.to();
                proof {
                    reveal(Buffer::to_effect);
                    lemma_history_consistent_keeps(&before, self);
                }
            },
            BufferAction::ScrollDown => {
                self.scroll_down(window_size);
                proof {
                    reveal(Buffer::scroll_down_effect);
                    lemma_history_consistent_keeps(&before, self);
                }
            },
            BufferAction::ScrollUp => {
                self.scroll_up(window_size);
                proof {
                    reveal(Buffer::scroll_up_effect);
                    lemma_history_consistent_keeps(&before, self);
                }
            },
            BufferAction::PageCursorHalfDown => {
                self.page_cursor_half_down(window_size);
                proof {
                    reveal(Buffer::page_cursor_half_down_effect);
                    lemma_history_consistent_keeps(&before, self);
                }
            },
            BufferAction::PageCursorHalfUp => {
                self.page_cursor_half_up(window_size);
                proof {
                    reveal(Buffer::page_cursor_half_up_effect);
                    lemma_history_consistent_keeps(&before, self);
                }
            },
            BufferAction::PageDown => {
                self.page_down(window_size);
                proof {
                    reveal(Buffer::page_down_effect);
                    lemma_history_consistent_keeps(&before, self);
                }
            },
            BufferAction::PageUp => {
                self.page_up(window_size);
                proof {
                    reveal(Buffer::page_up_effect);
                    lemma_history_consistent_keeps(&before, self);
                }
            },
            BufferAction::CollapseSelection => {
                self.collapse_selection();
                proof {
                    reveal(Buffer::collapse_selection_effect);
                    lemma_history_consistent_keeps(&before, self);
                }
            },
            BufferAction::FlipSelections => {
                self.flip_selection(window_size);
                proof {
                    reveal(Buffer::flip_selection_effect);
                    lemma_history_consistent_keeps(&before, self);
                }
            },
            BufferAction::Delete => {
                self.delete(window_size);
                proof {
                    reveal(Buffer::delete_effect);
                }
            },
            BufferAction::Undo => {
                self.undo(window_size);
                proof {
                    reveal(Buffer::undo_effect);
                }
            },
            BufferAction::Redo => {
                self.redo(window_size);
                proof {
                    reveal(Buffer::redo_effect);
                }
            },
            BufferAction::Save => {
                self.save();
                proof {
                    reveal(Buffer::save_effect);
                }
            },
            BufferAction::CopySelectionOnNextLine => {
                self.copy_selection_on_next_line(window_size);
                proof {
                    reveal(Buffer::copy_selection_on_next_line_effect);
                    lemma_history_consistent_keeps(&before, self);
                }
            },
            BufferAction::RotateSelectionsBackward => {
                self.rotate_selections_backward(window_size);
                proof {
                    reveal(Buffer::rotate_selections_backward_effect);
                    lemma_history_consistent_keeps(&before, self);
                }
            },
            BufferAction::RotateSelectionsForward => {
                self.rotate_selections_forward(window_size);
                proof {
                    reveal(Buffer::rotate_selections_forward_effect);
                    lemma_history_consistent_keeps(&before, self);
                }
            },
            BufferAction::KeepPrimarySelection => {
                self.keep_primary_selection();
                proof {
                    reveal(Buffer::keep_primary_selection_effect);
                    lemma_history_consistent_keeps(&before, self);
                }
            },
            BufferAction::RemovePrimarySelection => {
                self.remove_primary_selection();
                proof {
                    reveal(Buffer::remove_primary_selection_effect);
                    lemma_history_consistent_keeps(&before, self);
                }
            },
            BufferAction::SplitSelectionsInto1s => {
                self.split_selections_into_size(1, window_size);
                proof {
                    reveal(Buffer::split_selections_into_size_effect);
                    lemma_history_consistent_keeps(&before, self);
                }
            },
            BufferAction::SplitSelectionsInto2s => {
                self.split_selections_into_size(2, window_size);
                proof {
                    reveal(Buffer::split_selections_into_size_effect);
                    lemma_history_consistent_keeps(&before, self);
                }
            },
            BufferAction::SplitSelectionsInto3s => {
                self.split_selections_into_size(3, window_size);
                proof {
                    reveal(Buffer::split_selections_into_size_effect);
                    lemma_history_consistent_keeps(&before, self);
                }
            },
            BufferAction::SplitSelectionsInto4s => {
                self.split_selections_into_size(4, window_size);
                proof {
                    reveal(Buffer::split_selections_into_size_effect);
                    lemma_history_consistent_keeps(&before, self);
                }
            },
            BufferAction::SplitSelectionsInto5s => {
                self.split_selections_into_size(5, window_size);
                proof {
                    reveal(Buffer::split_selections_into_size_effect);
                    lemma_history_consistent_keeps(&before, self);
                }
            },
            BufferAction::SplitSelectionsInto6s => {
                self.split_selections_into_size(6, window_size);
                proof {
                    reveal(Buffer::split_selections_into_size_effect);
                    lemma_history_consistent_keeps(&before, self);
                }
            },
            BufferAction::SplitSelectionsInto7s => {
                self.split_selections_into_size(7, window_size);
                proof {
                    reveal(Buffer::split_selections_into_size_effect);
                    lemma_history_consistent_keeps(&before, self);
                }
            },
            BufferAction::SplitSelectionsInto8s => {
                self.split_selections_into_size(8, window_size);
                proof {
                    reveal(Buffer::split_selections_into_size_effect);
                    lemma_history_consistent_keeps(&before, self);
                }
            },
            BufferAction::SplitSelectionsInto9s => {
                self.split_selections_into_size(9, window_size);
                proof {
                    reveal(Buffer::split_selections_into_size_effect);
                    lemma_history_consistent_keeps(&before, self);
                }
            },
            BufferAction::JumpToSelectedOffset => {
                self.jump_to_selected_offset(window_size);
                proof {
                    reveal(Buffer::jump_to_selected_offset_effect);
                    lemma_history_consistent_keeps(&before, self);
                }
            },
            BufferAction::JumpToSelectedOffsetRelativeToMark => {
                self.jump_to_selected_offset_relative_to_mark(
                window_size,
            );
                proof {
                    reveal(Buffer::jump_to_selected_offset_relative_to_mark_effect);
                    lemma_history_consistent_keeps(&before, self);
                }
            },
            BufferAction::ToggleMark => {
                self.toggle_mark();
                proof {
                    reveal(Buffer::toggle_mark_effect);
                    lemma_history_consistent_keeps(&before, self);
                }
            },
            BufferAction::AlignViewCenter => {
                self.align_view_center(window_size);
                proof {
                    reveal(Buffer::align_view_center_effect);
                    lemma_history_consistent_keeps(&before, self);
                }
            },
            BufferAction::AlignViewBottom => {
                self.align_view_bottom(window_size);
                proof {
                    reveal(Buffer::align_view_bottom_effect);
                    lemma_history_consistent_keeps(&before, self);
                }
            },
            BufferAction::AlignViewTop => {
                self.align_view_top(window_size);
                proof {
                    reveal(Buffer::align_view_top_effect);
                    lemma_history_consistent_keeps(&before, self);
                }
            },
            BufferAction::FindTillMark => {
                self.till_mark(false, window_size);
                proof {
                    reveal(Buffer::till_mark_effect);
                    lemma_history_consistent_keeps(&before, self);
                }
            },
            BufferAction::FindTillNull => {
                self.till_null(false, window_size);
                proof {
                    reveal(Buffer::till_null_effect);
                    lemma_history_consistent_keeps(&before, self);
                }
            },
            BufferAction::FindTillFF => {
                self.till_FF(false, window_size);
                proof {
                    reveal(Buffer::till_FF_effect);
                    lemma_history_consistent_keeps(&before, self);
                }
            },
            BufferAction::ExtendTillMark => {
                self.till_mark(true, window_size);
                proof {
                    reveal(Buffer::till_mark_effect);
                    lemma_history_consistent_keeps(&before, self);
                }
            },
            BufferAction::ExtendTillNull => {
                self.till_null(true, window_size);
                proof {
                    reveal(Buffer::till_null_effect);
                    lemma_history_consistent_keeps(&before, self);
                }
            },
            BufferAction::ExtendTillFF => {
                self.till_FF(true, window_size);
                proof {
                    reveal(Buffer::till_FF_effect);
                    lemma_history_consistent_keeps(&before, self);
                }
            },
            BufferAction::InspectSelection => {
                self.inspect_selection();
                proof {
                    reveal(inspected);
                    lemma_history_consistent_keeps(&before, self);
                }
            },
            BufferAction::InspectSelectionColor => {
                self.inspect_selection_color();
                proof {
                    reveal(inspected);
                    lemma_history_consistent_keeps(&before, self);
                }
            },
        }
        proof {
            if !exempt_from_bounds(action, before, window_size) {
                lemma_executed_keeps_sizes(action, before, *self, window_size);
            }
            if before.scroll_position % 16 == 0 {
                lemma_executed_keeps_whole_lines(action, before, *self, window_size);
            }
            if before.wf(window_size) && !exempt_from_view(action, before) {
                lemma_executed_keeps_view(action, before, *self, window_size);
            }
        }
    }
}

} // verus!
