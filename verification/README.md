# vibecoded-game

A top-down action game built on Bevy, whose world and gameplay rules live in a library
verified with Verus.

- `src/` — the verified library:
  - `grid`, `tiles`: tile layers stored row by row and the tile registry (walkability).
  - `coords`, `chunk`: chunk and tile coordinates (Euclidean division, chunk keys), chunk
    layers, the set of loaded chunks and the layer manifest.
  - `terrain`: terrain streaming around the player — which chunks to generate, keep and unload.
  - `collider`: maximal runs of blocking tiles and the plan that keeps terrain colliders in step
    with the loaded chunks.
  - `combat`, `enemy`, `contacts`, `layers`: the attack cycle, combos, hitboxes, enemy health,
    terrain contacts and the collision layer matrix.
  - `mesh`, `debug`, `biome`, `settings`: mesh indices, debug overlays and counters, biomes and
    configuration.
- `app/` — the game itself: Bevy plugins and systems, rendering, physics and input, and the
  floating-point work (noise, movement, camera, lighting) around the library.
- `tests/` — tests of the library.
