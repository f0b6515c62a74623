# typst layout core, verified

The layout core of a typesetting system, written in Verus: the geometry of
lengths and regions, frames and their items, alignment, padding and
containers, flows of blocks and paragraphs, the prepared items and lines of
paragraphs, stacks, grids (cell placement, lines, column sizing, auto-row measurement,
and the rendering of cell fills and strokes), page geometry and page runs,
transformations, the collection of page runs, and the operands of the
compiled evaluator. Every function in `src/` carries a contract that Verus proves.

Lengths are whole numbers of a thousandth of a point and ratios whole numbers
of millionths, so that every sum and comparison is exact; where a division is
needed, it rounds down, except that halving a length (to centre an item, or to
set half a stroke's thickness to either side of a line) rounds toward zero.

Layout that needs the engine (laying out arbitrary content, text shaping,
introspection) stays with the caller: the library takes what such a step
produced, for example the frames of a laid-out block, and does the rest.

- `src/` the library, one module per area, with `src/grid/` for grids.
- `tests/` tests of the library on concrete values.
- `app/` what needs floating point: rotation, skew, aspect ratios and the
  optimized line breaking costs.
