# pdbg-app

The logic behind a desktop PDF inspector, written in Verus. Every function
under `src/` carries a contract that Verus proves, except a few small
wrappers of std calls (marked `external_body`, in `src/text.rs` and
`src/paths.rs`), whose contracts state what std documents and are trusted.

- `src/content.rs`, `src/nice.rs`: the tokenizer for PDF content streams and
  the indented "nice" view of their operators.
- `src/fragments.rs`, `src/spans.rs`: decoding of string operands into text
  fragments, match keys, and which text spans of a page show a fragment.
- `src/stream.rs`, `src/chunks.rs`: the stream inspector: block structure and
  selections in the nice view, hex dumps, loaded windows and their cache.
- `src/tree.rs`, `src/node.rs`, `src/model.rs`: the object tree (expanding,
  collapsing, finding rows for pages and objects) over the document model.
- `src/labels.rs`, `src/shell.rs`, `src/about.rs`: what the viewer shows:
  labels, status lines, titles, text made safe to display.
- `src/history.rs`, `src/cache.rs`, `src/recent.rs`, `src/render.rs`:
  navigation history, the visual page cache, the recent-files list and render
  requests.

The document model in `src/model.rs` (object ids and kinds, summaries,
details, `ResourceGroup`, diagnostics), the node path segments in
`src/node.rs` and `escape_plain_text` in `src/labels.rs` are this crate's own
models of the types and helpers of the inspector's core library
(`pdbg_core`), which this crate does not depend on: they give the behaviour
that the viewer relies on, with contracts of their own.

`app/` holds what stays outside verification: files on disk, environment and
build facts, floating-point geometry, and the fonts and images handed to
egui. The window itself is not part of this crate. `tests/` exercises the
library on concrete values.
