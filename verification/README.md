# split_watch

`swatch` is a terminal dashboard that runs shell commands periodically in
panes and shows their latest output. This crate holds its logic as a Verus
library, with the behaviour of each public function stated in its contract
and proved.

- `src/` — the verified library: layout trees and pane geometry, presets and
  startup variables (`{{name}}` substitution), themes and colour parsing, the
  dashboard state and everything a key press, a mouse event, a clock tick or a
  finished command does to it, ANSI output parsing, and the text fields of the
  dialogs. `src/laws.rs` states and proves the properties that span several
  operations.
- `app/` — the program around it: command-line parsing, reading and writing
  preset and theme files, running commands in pseudo-terminals, the event
  loop and drawing with ratatui.
- `tests/` — tests of the library on concrete values.
