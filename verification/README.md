# tescellate_ui

The model behind a spreadsheet front-end whose sheets tile the plane
with squares, hexagons or triangles, verified with Verus. Selections
also range over Voronoi cells, named by their seed.

`src/` is the library. Every function in it that computes a result or
changes a value carries an `ensures` that Verus proves (the native
autosave hook, which does nothing, is the one without); the laws that relate several functions
(undo after a restyle gives the table back, reading a cell right after
writing it, stepping there and back, the sort order being a total order,
…) are public proof functions next to the code they speak of.

- `text`, `lattice`, `keyed`: characters and strings, cell coordinates,
  and per-cell tables kept as lists of distinct keys.
- `grid`, `nav`, `selection`, `fill`: A1 addresses, navigation and block
  jumps, selections on every lattice, the fill handle's plan.
- `format`, `conditional`, `note`, `widget`, `edits`, `history`: cell
  formats and their tables, conditional-format overlays, notes, widget
  cells, format edits with undo, redo and coalescing, the undo history.
- `find`, `clipboard`, `formula_mode`, `keymap`, `ribbon`: search,
  copy and paste, pointing at cells while typing a formula, the keyboard
  map and ribbon labels.
- `calendar`, `state_io`: date arithmetic of date-formatted cells, and
  the framing of the browser autosave (base64 through the `base64` crate).
- `carbide`: the workbook app's keymap, ribbon, conditional-format rule
  order and column sort.

`app/` is the part that works on `f64` values and on egui types: number
rendering, statistics, slider positions, the conversions from egui input,
and the serde copy of the persisted UI state. It calls into the library
for every decision.

`tests/` runs the library on concrete values.
