# polydural

The engine logic of Polydural, a block-building game, as a library whose
functions carry contracts proved with Verus.

- `src/` — the verified library:
  - `position_map`, `grid`: maps keyed by chunk positions; cell indexing,
    lookups across chunk faces, world-cell to chunk splitting.
  - `chunk` (16-cell chunks) and `lit_chunk` (32-cell chunks with light and
    transparency): block reads and writes, light columns, meshing.
  - `biome_terrain`, `world/generation`: terrain generation from the noise
    inputs of a chunk.
  - `world`, `common`: the block, shape, structure and biome registries and
    the data files that fill them.
  - `chunk_loading`, `interact`, `physics`: which chunks are active or
    queued, breaking and placing blocks along the view ray, collisions.
  - `mesh`, `vertex_data`, `objects`, `containers`: mesh building blocks,
    the cube mesh, the hotbar.
  - `render_check`: whether a chunk and its neighbours can be meshed.
  - `media`: decoding sounds (WAV through `hound`, Ogg Vorbis through
    `lewton`, with the channels gathered in verified code) and the texture
    atlas (through `image`).
- `tests/` — tests of the library on concrete worlds.
- `app/` — the program around it: reading assets, scaling float WAV
  samples, the noise sampling, camera movement and the frame loop.
