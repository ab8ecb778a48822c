# hikki

The verified core of a markdown note editor: wiki links and backlinks,
front matter and titles, vim-style key handling, a rope-backed editing
buffer with grouped undo and redo, and the decisions of the editor window.

- `src/` is the library, written and proved with Verus:
  - `text` — character-level helpers (trimming, splitting, searching, UTF-8 widths);
  - `rope` — the rope that holds a buffer's text and the model of its lines;
  - `editor` — the editing buffer: cursor, selection, edits, undo and redo;
  - `input` — the modal key handler and command parsing;
  - `links` — wiki-link extraction, the title map and the backlink index;
  - `notes` — front matter, titles, inline tags, fuzzy matching, vault listings;
  - `platform` — what the platform note storage decides about the notes it reads;
  - `config` — the editor, storage and sync settings;
  - `render` — the view state, the status line, the editor rows and note
    list entries, the markdown preview lines, and scrolling;
  - `session` — what a key press changes and what it asks the application to do.
- `app/` is the program around it: files, configuration loading, the GPU
  window, full-text search and the MCP server.
- `tests/` exercises the library on concrete inputs.
