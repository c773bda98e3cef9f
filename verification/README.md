# epycell

A terminal Jupyter notebook: cells are edited in the user's own editor (live, inside
the cell's box, or full screen), run on an IPython kernel, and their output — text
and inline figures — shown under them. The editor gets completions and hovers from
the running kernel through a small language server.

## Layout

- `src/` — the verified library (Verus):
  - `chars.rs` — characters of strings, line and piece splitting, UTF-8 lengths, trimming.
  - `text.rs` — carriage-return aware output appending, escape-sequence stripping,
    (line, character) to byte offsets, source and markdown row counts.
  - `config.rs` — colours, key bindings, their defaults and parsing, and the merge of a
    parsed config file over the defaults.
  - `layout.rs` — output blocks, their row counts, output truncation and following.
  - `notebook.rs` — the notebook state and its rules: keys, scrolling, runs and their
    output, editing and saving.
  - `view.rs` — where cells, source boxes, output blocks and markers go on screen.
  - `kernel.rs` — what the kernel's messages mean for a running cell.
  - `nb.rs` — `.ipynb` documents: the cells read from one, the text written for cells.
  - `lsp.rs` — the language server's decisions, replies and message framing.
  - `editor.rs` — the editor's command line and its language-server configuration files.
  - `pty.rs` — keys as terminal input bytes, and the live editor's size.
- `app/` — the program around it: terminal drawing, the kernel connection, files,
  the PTY, and the language server's I/O loop.
- `tests/` — tests of the library on concrete values.
