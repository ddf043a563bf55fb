# ply_engine

The core of the Ply UI layout engine, with its contracts and proofs.

`src/` is the verified library. It holds the parts of the engine that work on
integers, booleans and strings:

- `tree.rs`: the element tree of a frame (opening and closing elements,
  children in declaration order, clipping scopes, floating roots and their
  stacking order);
- `engine.rs`: element ids and their hashing, the element map with its
  per-frame bookkeeping, keyboard focus and tab order, pointer press and
  hover state, text-input values and carets, and the configuration types;
- `render.rs`: which draw steps a frame produces and in what order (tree
  roots by stacking order, elements depth first, shader groups, clipping,
  borders and the focus ring), with the proof that groups and clipping
  open and close in pairs;
- `debug_view.rs`: the rows of the debug view's element list and of its
  panel for the selected element;
- `text_measure.rs` and `text_cache.rs`: how a text is cut into measured
  words, and the cache of measured texts with its word arena;
- `scroll.rs`: which scroll containers exist and which one a drag scrolls;
- `elements.rs`, `input.rs`, `strings.rs`, `renderer.rs`,
  `render_commands.rs`, `focus.rs`, `align.rs`, `id.rs`: builders, key
  mapping, string escaping, asset descriptors and supporting types;
- `laws.rs`: properties that span several operations, stated and proved
  over the specifications of those operations;
- `fxmap.rs`: the `rustc_hash` maps the engine keeps, with the behaviour of
  the map operations it uses.

Sizes, positions, colours, time and the drawing itself are floating point
or platform work; they live in `app/`, which drives the verified core from
macroquad and computes sizes from what the core reports.

`tests/` runs the library on concrete frames and values.
