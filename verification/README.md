# pcg

The data structures and algorithms of the Place Capability Graph analysis,
with their contracts proved by Verus.

- `src/` is the verified library: places and lifetime projections, the
  edges of the borrow graph and the graph itself, each edge with its
  validity conditions (insertion, which joins conditions, removal,
  blocking queries, acyclicity, removal order, unblocking, aliases,
  ancestors and descendants, the join of two graphs and the join at a loop
  head), the actions on the borrow state and the capabilities of places,
  whether an expansion can be packed, the grouping and coupling of abstraction edges into
  hyperedges (through the `union-find` crate), function shapes and the
  outlives relation between the regions of a function call (over a model of
  types as plain values), natural loop analysis, place usages in loops and their consolidation, the annotations
  of test sources, the decisions of the upload form of the server (including
  the answer to a failed analysis), and the
  paths of the `pcg_bin` tool.
- `tests/` runs the library on concrete values.
- `app/` is the web server: it reads the upload form, runs `pcg_bin` and
  serves the visualization, leaving every decision to the library.
