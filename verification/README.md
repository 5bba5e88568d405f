# neopoligen_parser

A reader for documents made of sections (`-- name` headers, lists,
checklists, JSON and YAML data, generic sections that nest) and a renderer
of the resulting tree to HTML, verified with Verus.

Every reader is specified by a spec function over the characters that follow
its start position, and every executable reader is proved to compute exactly
that function. The renderer is proved to produce exactly the HTML that its
spec functions describe.

Layout:

- `src/text.rs`: character classes, runs, tags, searching, trimming, the
  `many0` combinator as a spec function, and line/column location.
- `src/span/`: inline spans of a paragraph.
- `src/block/`: paragraphs and the guards on what may start one.
- `src/section/`: section headers and the readers of each kind of section;
  `node.rs` holds the tree and its mathematical model.
- `src/render.rs`: HTML output of nodes and spans.
- `src/properties.rs`: laws across reader and renderer (every parsed
  document renders; every section that keeps a node for its end tag is closed
  by it; output is
  compositional).
- `src/lib.rs`: `parse`, the error it reports, and `Sections`.
- `app/main.rs`: the command-line program that parses a sample document and
  writes the HTML to a file.
