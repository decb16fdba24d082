# Virtua Grotesk figures

Figure renderers for the “Virtua Grotesk: Powers-of-Two Design Grids for
Neural Networks” post, and the xix calculator and design-token demos.

The logic the figures depend on is a library verified with Verus
(`src/`); the drawing, file I/O and floating-point geometry are an ordinary
Rust program (`app/`).

## Library (`src/`)

| Module | What it holds |
| --- | --- |
| `png` | sRGB/gAMA/cHRM tagging of rendered PNGs; tagging is idempotent |
| `glyph` | UFO glif names and the walk round a contour (segments, markers, handles) |
| `sfnt` | the Windows family name from an OpenType `name` table |
| `runlog` | the training-log reader behind the loss curves |
| `svg` | the evaluation-harness SVG reader and the comparison-figure layout |
| `powers` | powers-of-two sums (`64+32`) and their measurement layout |
| `bits` | bit cells, trailing zeros, 1/64 px exactness, the midpoint split, grid shades, axis ticks |
| `placement` | the label annealer's fixed-seed generator and its repair pass |
| `calculator` | the calculator state machine and its keypad |
| `paths`, `inputs` | output locations and pinned inputs |
| `technical` | the technical-drawing style switches |
| `text` | character-level string helpers shared by the readers |

Each public function states its result in its `ensures`; the properties
that relate several calls are public proof functions (`lemma_*`) next to
the functions they speak of.

## Program (`app/`)

`virtua-figures <program> [--site | --scratch]` renders one figure group
(`og`, `figs`, `optical`, `grids`, `proofs`, `model`, `system`, `interp`,
`interpn`, `curves`, `nastaliq`, `card`) or runs a demo (`calc`, `tokens`).
Renders replace the working-tree blog assets by default; `--scratch`
writes to `build/preview/` instead.

## Tests (`tests/`)

Scenario tests for every module, including the error cases of each reader.
