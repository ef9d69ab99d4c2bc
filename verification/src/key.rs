use vstd::prelude::*;

verus! {

/// The keys that the entry prompts and the replace command tell apart.
#[derive(Clone, Copy, PartialEq, Eq, Structural, Debug)]
pub enum Key {
    Char(char),
    Backspace,
    Delete,
    Left,
    Right,
    Enter,
    /// Any other key.
    Other,
}

} // verus!
