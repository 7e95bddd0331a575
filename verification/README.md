# rhwp

The core of a toolkit for HWP and HWPX (Hangul word processor) documents,
written in Verus. The functions in `src/` carry contracts that Verus proves,
with one exception: the small `#[verifier::external_body]` wrappers around
the outside crates (`quick-xml`, `flate2`, `cfb`, `base64`, `blake3`) and a
few `std` calls are trusted, not proved; each states in its doc comment what
its contract claims of the code it calls.

## Layout

- `src/fragment_paste/` — pasting HWPX fragments into raw section XML,
  byte for byte: ID remapping of header definitions, rewriting of ID
  references, top-level paragraph scanning, table address recomputation.
- `src/document_core/` — the editing state of a loaded document: pasting a
  fragment into it, moving paragraphs between documents (definition merge,
  reference mapping, caret split), the raw-XML queries, and the HWPX-to-HWP
  IR adapter with the common object attribute record.
- `src/model.rs` — the document IR (definitions, sections, paragraphs,
  controls, tables) and the paragraph split at a caret.
- `src/emf/` — the EMF record cursor and header parser.
- `src/parser/` — OLE containers of embedded objects (through `cfb`), the
  streams carried from an HWPX container into an HWP file (through `flate2`),
  and the source formats.
- `src/ooxml_chart/` — the DrawingML chart reader (tokens from `quick-xml`)
  and the exact parts of chart rendering (colours, XML escaping).
- `src/renderer/` — single-image SVG fragments with base64 data URLs
  (through `base64`).
- `src/paint/` — resource keys (BLAKE3 digests through `blake3`), the layer
  tree schema and paint-op names.
- `src/desktop.rs` — the decisions of the desktop shell: the recent-documents
  list, document file extensions, menu actions and the recent menu.
- `src/scan.rs`, `src/text.rs`, `src/decimal.rs` — byte scanning, UTF-8 and
  UTF-16 facts, decimal numbers.
- `app/` — the chart model with numeric values and its SVG rendering, which
  compute in floating point.
- `tests/` — tests run against the compiled library with the real outside
  crates.

## What is not here

The layout engine and the renderers are not part of this crate: table and cell layout (`layout_table`, `layout_table_cells`,
`resolve_row_heights`, `compute_cell_line_ranges`,
`calc_visible_content_height_from_ranges_with_offset`), the render-tree
builder (`build_node`), the Skia renderer (`render_node`, `draw_image_bytes`)
and the paint-op JSON writer (`write_json`). They compute page geometry in
floating point, draw through Skia, and work on the render tree, layout and
composer modules, none of which this library holds. For the same reason a
paste into a loaded document updates the raw XML and the editing state here,
while re-reading the new XML into the IR (an HWPX reader) and recomposing
the section are the caller's; `install_reparsed` puts a re-read in place.
