# note_render

A live Markdown/LaTeX note viewer. The library in `src/` holds the logic,
verified with Verus; `app/` is the program around it (window, file watching,
resource server).

- `src/events.rs` — the Markdown events the renderer reads.
- `src/incremental_dom.rs` — events to IncrementalDOM JavaScript, with the
  spec of every event's output, and laws on math, footnotes, tables,
  closing tags, joined renderings and well-nested documents.
- `src/text.rs` — escaping for JavaScript strings and HTML attributes,
  decimal numbers.
- `src/markdown_parser.rs` — Markdown parsing with pulldown-cmark, its events
  converted into the library's events.
- `src/markdown_handler.rs` — the note text (inline `$$...$$` math becomes
  marked inline code, stated as a spec of the replacement) and image links
  pointed at the local server.
- `src/filesystem_handler.rs` — which files may be opened, and where a
  resource request is looked up.
- `src/noterender.rs` — the starting page, the page update script, and the
  handling of the window's events.
- `src/paths.rs` — the parts of a path, as `std::path::Path` gives them:
  the file name by name, the extension and stem as its documentation states
  them.
