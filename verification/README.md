# ascendustry

The block-world core of a voxel game, verified with Verus, and the rendering and input code
around it.

- `src/` is the verified library:
  - `world` — blocks, chunks of 32 x 32 x 32 blocks, padded chunks (a chunk with the border
    blocks of its six neighbours), and the world of loaded chunks: lookups by world
    coordinates, the chunks in a range, and keeping exactly the chunks of a range loaded.
  - `engine::render::mesh` — greedy meshing: the faces between a block and air of each slice
    of a padded chunk are merged into rectangles and turned into triangles. The contracts
    state the exact rectangles the greedy pass builds, and lemmas show that they are unique,
    do not overlap and cover every face.
  - `engine::render::mesh::face_mask`, `texto`, `engine::render::geometry` — bit-packed face
    and quad descriptions, with their read-back laws.
  - `game::world` — the game's chunks and blocks, and the layer logic of terrain generation.
  - `common`, `engine::inputs`, `engine::application`, `player` — directions, a value that
    remembers its last state, key states, application events and the rendered chunk count.
- `app/` holds what works with the GPU (`wgpu`), threads (`rayon`), floating-point cameras and
  ray casts, and JSON configuration files (`serde`); it calls the library for the rest.
- `tests/` exercises the library on concrete values.
