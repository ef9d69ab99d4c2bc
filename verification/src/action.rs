use vstd::prelude::*;

verus! {

/// A command that acts on the whole editor rather than on one buffer.
#[derive(Clone, Copy, PartialEq, Eq, Structural, Debug, Hash)]
pub enum AppAction {
    QuitIfSaved,
    Quit,
    PreviousBuffer,
    NextBuffer,
    Yank,
}

/// A command that acts on the current buffer.
#[derive(Clone, Copy, PartialEq, Eq, Structural, Debug, Hash)]
pub enum BufferAction {
    NormalMode,
    SelectMode,
    Goto,
    View,
    Replace,
    Space,
    Repeat,
    To,
    ScrollDown,
    ScrollUp,
    PageCursorHalfDown,
    PageCursorHalfUp,
    PageDown,
    PageUp,
    CollapseSelection,
    FlipSelections,
    Delete,
    Undo,
    Redo,
    Save,
    CopySelectionOnNextLine,
    RotateSelectionsBackward,
    RotateSelectionsForward,
    KeepPrimarySelection,
    RemovePrimarySelection,
    SplitSelectionsInto1s,
    SplitSelectionsInto2s,
    SplitSelectionsInto3s,
    SplitSelectionsInto4s,
    SplitSelectionsInto5s,
    SplitSelectionsInto6s,
    SplitSelectionsInto7s,
    SplitSelectionsInto8s,
    SplitSelectionsInto9s,
    JumpToSelectedOffset,
    JumpToSelectedOffsetRelativeToMark,
    ToggleMark,
    AlignViewCenter,
    AlignViewBottom,
    AlignViewTop,
    FindTillMark,
    FindTillNull,
    FindTillFF,
    ExtendTillMark,
    ExtendTillNull,
    ExtendTillFF,
    InspectSelection,
    InspectSelectionColor,
}

/// What a key is bound to.
#[derive(Clone, Copy, PartialEq, Eq, Structural, Debug)]
pub enum Binding {
    App(AppAction),
    Buffer(BufferAction),
    /// Opens the prompt for a hexadecimal offset.
    GotoOffset,
    /// Opens the prompt for a decimal offset.
    GotoDecimalOffset,
}

impl Binding {
    /// Whether the binding runs one of the inspections.
    pub open spec fn is_inspection(self) -> bool {
        ||| self == Binding::Buffer(BufferAction::InspectSelection)
        ||| self == Binding::Buffer(BufferAction::InspectSelectionColor)
    }
}

} // verus!
