# Crossword grid entries, verified

A small library for crossword grids, verified with Verus.

- `src/grid.rs`: grid directions, coordinates, word entries and grids.
  Each `Entry` has a mathematical view (`EntryView`: start coordinate, text,
  direction). The bounds, start and end of an entry are stated over that
  view. `max_across`/`max_down` give start plus length along the entry's
  direction; `end_coordinate` gives its last cell. `overlaps` (parallel
  entries sharing a cell), `intersects` (perpendicular entries sharing a
  cell) and `Grid::from` (grid size as the largest coordinate of any entry's
  last cell) have exact contracts.
- `src/laws.rs`: properties that relate the operations, such as symmetry of
  overlap and intersection, overlap as meeting spans, and the grid size
  bounding every entry.
- `tests/`: executable tests.
- `app/main.rs`: the command-line program, which reads a word list from
  standard input and prints it.

An entry's length is the length of its text in UTF-8 bytes. Functions that
compute an entry's end require that `start + length - 1` fits in `usize`
(`EntryView::end_fits`).
