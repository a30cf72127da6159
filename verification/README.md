# semdiff

A structure-aware diff of source code. Files are parsed with tree-sitter
into symbols (functions, methods, types, constants); the symbols of two
versions are matched within files and across files, each change is
classified (added, deleted, renamed, moved, extracted, inlined, signature
or body changed, visibility changed) and given an intent, and a
repository-wide analysis reports the callers a change reaches and similar
code that may need the same update.

## Layout

- `src/` — the library, verified with Verus: parsing results as plain
  syntax trees and symbol extraction (`ast`), matching, classification and
  the diff pipeline (`diff`), the call graph, similarity search and impact
  analysis (`repo`), the stored index (`index`), git output parsing
  (`git`), text reports (`output`), LLM prompts (`llm`) and the terminal
  view's state and panel contents (`tui`).
- `app/` — the program around it: command line, git and file I/O, the
  index file, JSON output, the HTTP client for LLM reviews and the
  terminal drawing.
- `tests/` — tests of the library.
