# rat_king

Tools for pen-plotter fill patterns, as a Verus-verified library (`src/`)
and a command-line program around it (`app/`).

## Library (`src/`)

- `patterns` — the pattern catalogue: names, parsing names (case-insensitive,
  with aliases), notes.
- `curves` — the cell orders of the Peano curve and the serpentine meander,
  and the Gosper L-system; proved to visit every grid cell once and to move
  between neighbouring cells only.
- `hershey` — the JHF (Hershey font) parser and glyph lookup.
- `analyze` — SVG analysis:
  - `xml`: the tags of a document as plain values, read with `quick-xml`;
  - `streaming`: the one-pass analyzer over those tags (element counts,
    `<defs>` tracking, top-level groups with their direct-child counts,
    fill and stroke color tables, root element attributes, warnings);
  - `viewbox`: parsing `viewBox` values (four numbers in `f64` syntax);
  - `colors`, `size`: color normalization and ranking, human-readable sizes;
  - `nodes`: a parsed document as plain values, the hierarchy view built
    from it, and color queries;
  - `tree`, `report`: text renderings.
- `viewer` — key bindings, selection and generation scheduling of the
  interactive viewer.
- `banner` — which patterns may appear in a banner, and the random plan of
  its cells (through `rand`).
- `common`, `recipe`, `swatches`, `svg`, `text` — small helpers.

## Program (`app/`)

`rat-king analyze <file.svg>` reads a file, runs the streaming analyzer on
its text, parses the document with `usvg` for queries and the
tree view, and prints a report or JSON. `rat-king patterns` lists the
catalogue. Floating-point work (bounding boxes, region queries, sampling,
Hershey glyph placement) lives in `app/`.
