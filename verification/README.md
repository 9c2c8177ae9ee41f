# ascii_vault

A vault of ASCII art for the terminal: a list of named pieces, an editor for
them, copying and pasting through the Wayland clipboard, and writing one piece
to the logo file that Fastfetch reads.

- `src/` is the library, verified with Verus: UTF-8 cursor motion and editing
  (`buffer`, over the byte/character model in `text`), the accepted file paths
  (`path`), the vault's state and its invariant (`model`), the answer to every
  key and to the results of file and clipboard work (`events`), and what the
  screen shows (`screen`).
- `app/` is the terminal side: reading keys with crossterm, drawing with
  ratatui, the JSON files (serde), and the clipboard commands.
- `tests/` runs the library on concrete inputs.
