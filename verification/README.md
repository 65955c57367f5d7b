# read-bin

A terminal hex viewer and editor for large files, as a verified library
(`src/`) and a thin terminal front end (`app/`).

The library holds the viewer's logic with Verus contracts:

- `search`, `bytepat`, `bitmap`: search expressions (hex bytes, nibble
  patterns, masked byte patterns, plain strings) and the four-level bitmap
  index that finds matches on demand;
- `modified`: the sparse hierarchical bitmap of edited offsets;
- `app`, `edit`, `find`: the viewer state (packs of 4096 bytes, scrolling,
  cursor, matches) and the edit overlay with undo, redo and restore;
- `keys`, `nav`, `input`, `mouse`: what keys and clicks do in each mode
  and prompt;
- `utf8`, `utf8_span`, `render`: decoding rows, the cells of a row (text,
  shade, italics for edited bytes, emphasis), shade groups and background
  colours;
- `status`: the text of the status bar in each mode;
- `colors`, `config`: the colour configuration text (`color.yaml`): colour
  names and `[r, g, b]` lists, `{ fg: .., bg: .. }` styles, the style of
  each key, and which style each kind of byte or character is drawn with;
- `tui`: the reader of `.tui` component files;
- `browser`: the file browser's list and what choosing a row leads to.

`app/main.rs` sets up the terminal, reads events, draws, and performs file,
clipboard and directory access.
