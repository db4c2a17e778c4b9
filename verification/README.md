# fbii

A terminal e-book reader for FB2, zipped FB2 and EPUB, with vim-like
controls. The library under `src/` is written in Verus: its parsers,
layout engine, search index, key dispatch and application state machine
carry contracts that Verus proves. `app/` is the program around it: the
command line, the TOML configuration file, the SQLite library database,
file and network access, and the terminal user interface.

## Layout

- `src/formats/` – the document model, XML trees (parsed by `roxmltree`),
  text decoding (`encoding_rs`), ZIP members (`zip`), the FB2, XHTML and
  EPUB readers, and the choice of parser for a file.
- `src/renderer/` – line wrapping (`unicode-width`) and simplified mode;
  `order.rs` proves that the lines tile the book's characters in reading
  order and that each block's first line starts at the block's offset.
- `src/search/` – the search index over NFKD-folded text
  (`unicode-normalization`).
- `src/config/` – configuration values and key bindings.
- `src/opds/` – OPDS catalog feeds, link resolution, and browsing a feed
  with the keyboard.
- `src/themes/` – the color themes.
- `src/tui/` – key dispatch and the application state: every key press or
  action gives the next state and an `Effect` for the program to carry out.
- `src/library.rs` – which files a library scan collects, and its tally.
- `app/` – `main`, the database, the configuration file, file and network
  I/O, and drawing with `ratatui`.
