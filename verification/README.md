# monarch_engine

A cellular world engine whose logic is verified with Verus: bit-packed terrain cells, a
toroidal grid that follows the player, the cellular automata that move liquids, granular
matter, fire and life across it, chunk streaming between the grid, a cache and the disk, and
the overworld's procedural chunks.

## Layout

- `src/` is the verified library. Each public function states its result in its `ensures`;
  the properties that span several calls are public proof functions named `law_*`.
  - `cell`, `pixel`, `flags`, `materials`: cells and their fields, materials and flag bits.
  - `grid`, `window`: the toroidal cell grid of the simulation and the pixel window of the
    overworld, with loading and reading back of chunks.
  - `sim`: the automata (liquid, granular, creep, fire, biology) and the world step.
  - `physics`, `deform`: transfer rules, and carving and filling the terrain in whole levels.
  - `chunk`, `cache`, `stream`: chunk keys and views, the LRU cache of chunks, and the
    streaming window that promotes, demotes and requests chunks.
  - `overworld`, `terrain_gen`, `spatial`, `observer`, `dirs`, `rng`, `hash`: procedural
    chunks, terrain generation, the entity index, the observer's controls, neighbour orders.
- `tests/` runs the library on concrete values.
- `app/` is the game around the library: bevy plugins and systems, floating-point physics,
  positions in world units, and chunk files on disk.
