# hexapoda

A modal hex editor for the terminal, with its editing logic verified by Verus.

- `src/` is the library, verified: buffers and their selections (`buffer`,
  `cursor`), the commands (`action`, `buffer/actions.rs`, `buffer/execute.rs`),
  edits with undo and redo (`edit_action`, `buffer/edits.rs`), marks, the
  offset prompts and the replace command (`buffer/keys.rs`), the inspector
  (`buffer/inspect.rs`, `bytes`, `popup`), the view arithmetic
  (`buffer/screen.rs`, `window_size`) and the editor state (`editor`).
- `app/` is the program around it: arguments, reading and writing files, the
  terminal, key bindings and drawing.
- `tests/` runs the library on concrete buffers.

Laws of the library are public proof functions, for instance
`lemma_delete_then_undo` (undoing a deletion restores the bytes and the
selections), `lemma_merged_keeps_selection` (merging overlapping selections
keeps exactly the same bytes selected) and `lemma_executed_keeps_sizes`
(commands keep the selections and the view inside the contents, except
scrolling up from a view that runs past the end and moving to a mark that
lies past the end, see `exempt_from_bounds`).
