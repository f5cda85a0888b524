# monux

A markdown note vault with a command line and a terminal browser, whose
rules are written in Verus and proved.

- `src/` is the library, verified: text handling, note paths and slugs, tags
  and front matter, the index's rules, configuration, plugin markers, the
  line editor (`src/editor/`), and the terminal browser's decisions
  (`src/tui/`): key handling, cursor motions and edits, folding, visual
  selections, the notes tree, links, search, tables, markdown styling
  (line prefixes, and the spans of a segment from pulldown-cmark's events,
  `src/tui/render.rs`), the buffer cache, undo, and where things go on the
  screen.
  Public proof functions named `lemma_*` state the laws the library keeps:
  the editor's buffer written and read back gives the same lines, and a file
  read and written back the same text (`src/editor/laws.rs`), with input
  mode following the `a`/`i`/`c` and `.` typed; tags written into a note read
  back as written (`src/tag_laws.rs`); canonical note paths and slugs are
  their own canonical forms (`src/path_laws.rs`, `src/slug.rs`); what an
  undo restores, orders being strict and total, and so on.
- `app/` is the `monux` command: argument parsing, the files on disk and the
  index database. It hands the library plain values and acts on what it
  decides. The terminal front end itself (drawing and the event loop) is not
  part of this crate.
- `tests/` runs the library on concrete cases.
