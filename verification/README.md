# viewer

The logic of a read-only terminal file viewer, verified with Verus.

A registry maps file extensions to a view kind and an editor command; it
ships with defaults and is extended by a plain config file of lines
`ext  kind  edit-command`. A rendering turns a file into display text:
highlighted text, aligned tables from CSV and spreadsheets, outlines of
pptx and ODF presentations, the text of documents and PDFs from their
converters, and a hex dump for binary files. The rendering asks for the
file reads and program runs it needs and decides everything in between.

Layout:

- `src/` — the verified library: `registry` (kinds, handlers, config
  merging and lookup), `view` (the rendering steps), `table`, `slides`,
  `xml`, `dump`, `documents`, `syntax`, `date` (spreadsheet dates),
  `ui` (title, footer, key help, key bindings, editor command line),
  and the string and number helpers `text`, `fmt`, `paths`, `term`.
- `tests/` — tests of the library.
- `app/` — the terminal program: panes, keys, files and processes.
