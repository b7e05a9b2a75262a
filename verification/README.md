# fig_parser

A verified reader for Figma `.fig` files, written in Verus.

A `.fig` file is a ZIP container holding `canvas.fig` (an 8-byte prelude, a
version and length-prefixed chunks: a raw-deflate Kiwi schema and a raw-deflate
or zstd Kiwi message), `meta.json`, a thumbnail and images. The library reads
the container, decodes the schema-directed Kiwi message into a small value
tree, extracts document nodes (paints, effects, text, baked geometry blobs),
links every node to its parent, orders each parent's children by their
position keys, and lists the pages.

Layout of `src/`:

- `archive` — which ZIP entries the document takes (through the `zip` crate).
- `binary` — the `canvas.fig` header and chunks (through `flate2` and `zstd`).
- `wire`, `schema`, `fastkiwi` — the Kiwi wire format, the schema (through
  `kiwi-schema`) and the message decoder.
- `geometry`, `nodes` — geometry blobs and per-node field extraction.
- `document`, `tree`, `meta`, `kiwi` — the document, its children map and
  pages, the checks of its parent/child graph, the `meta.json` fields, and
  the decoding pipeline.
- `scene` — the structure of each page's render tree.
- `svg`, `session`, `text` — escaping and base64, the viewer's tabs and ids.

Numbers stored as `f32` on the wire are carried as their bit patterns; `app/`
turns them back into floats, holds file access, the inspection tool that
prints a document's structure and graph checks, and the single-precision
rendering helpers.
