# spellcaster

The logic of a small 2D sprite game, verified with Verus.

- `src/` is the verified library: components (animation sheets, keyboard
  input, scene-graph nodes with depth ordering, sprites, screen-change
  requests), sprite-sheet bookkeeping, tile-map layout, batching decisions
  and index lists for drawing, object components read from map properties,
  parent chains of the scene graph, the drawing walk over the scene graph
  and the draw calls of each entity, player steering and the screen state
  machine. Every public function states its result exactly; the laws the
  game relies on (stable depth ordering, read-after-write of key and frame
  indexes, split/join of frame lists, ...) are public proof functions.
- `tests/` runs the library on concrete values.
- `app/` is the program around it: the window, the entity-component world,
  rendering with gfx and glyph drawing, asset loading, and everything that
  works on floating-point positions.
