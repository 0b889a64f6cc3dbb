# ttt — terminal typing trainer, verified core

A typing trainer that shows syntax-highlighted source code and lets the user
type it over, line by line, skipping comments and indentation.

The library in `src/` is written in Verus and proved against its contracts:

- `text` — characters and strings: UTF-8 widths, white space, line splitting
  as `str::lines` does it, tab expansion.
- `source` — source lines: what of a highlighted line is typed (code, without
  indentation or trailing white space), what is a comment suffix, and how the
  line is classified (code, comment, empty, mixed); style conversion; turning
  highlighted regions into tokens.
- `scopes` — the scope changes the parser reports, the scope stack they
  change (carried from line to line), and which segments of a line lie in
  a comment scope (a scope named `comment` or below it).
- `parser` — highlighting with syntect (behind trusted wrappers, which name
  the parser's output for a syntax and the lines fed so far), and the
  splitting of a whole text into source lines, one line at a time
  (`highlight_line`), with exactly when it fails (`parse_outcome`).
- `stats` — keystroke counts and the typing time, which runs only while a
  line is being typed; `M:SS` display.
- `app` — the typing session as a state machine: typing, Backspace, Ctrl+W,
  Ctrl+R, Enter, line selection, and key dispatch, with an abstract view
  (`AppView`), its invariant, and laws relating the operations.
- `overlay` — how each character of a line to type is shown: typed right,
  typed wrong, under the cursor, or not typed yet.
- `diff` — the added lines of a unified diff, optionally of source files only.
- `cli` — the command line, and where the source text comes from.

`app/` is the terminal program around it: reading files and standard input,
the terminal loop with ratatui and crossterm, drawing, and the speeds and
accuracy, which are floating point.
