# playform

The core of a voxel sandbox game, verified with Verus: which blocks around a
moving player to load and at what level of detail, who holds each block, the
buffers the renderer fills, and the input and jump bookkeeping.

## Layout

- `src/` — the verified library.
  - `block_position`, `cube_shell`, `range_abs`, `surroundings_iter`,
    `surroundings_loader`: the shells of blocks around a position, walked
    outwards, and the loader that turns a player's moves into
    level-of-detail changes within a time budget.
  - `lod_map`, `in_progress_terrain`, `terrain`, `client`: who wants each
    block at which level of detail, the blocks being generated, the meshes
    generated, and the blocks a client has received.
  - `player`, `jump`, `process_event`, `sun`, `mob`: load distances for a
    polygon budget, the jump state machine, what keys and mouse ask for, the
    sun's position on its circle, and the game of tag a mob plays.
  - `glw` (with `queue`, `vertex`, `gl_buffer`, `texture`), `glbuffer`,
    `block`, `mob`, `id_slots`, `common`: bounded queues, vertex layouts, and
    the bookkeeping of vertex buffers in video memory; each buffer operation
    returns the range of bytes to write, copy or draw.
  - `shader`: `$var` substitution in shader sources.
  - `stopwatch`, `id_allocator`, `state`, `event_handler`, `octree`,
    `loader`, `borrow`, `color`: timers, id allocation and small helpers.
- `tests/` — tests of the library, run against the compiled crate.
- `app/` — the program around the library: logging, reading shader files,
  the OpenGL calls that carry out the buffer operations, and the
  floating-point geometry (boxes, octree, physics, camera, player and mob
  movement, sunlight).
