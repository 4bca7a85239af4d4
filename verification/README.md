# shiboru

A fuzzy picker for Neovim (files, live grep, buffers), split in two:

- `src/` — the verified library: the picker state machine, the sources'
  item building (grep output parsing, file ordering, buffer listing), window
  layout and the command an accepted item runs. Each public function carries
  a contract checked by Verus; `src/laws.rs` proves properties that span
  several operations.
- `app/` — the editor plugin around it: user commands, Neovim windows and
  keymaps, the file system walk, running `rg`/`grep`, and the fuzzy matcher
  (`furui`), whose ranking is handed to the state with
  `PickerState::apply_ranking`.
