# crustcrab client logic

The client side of a voxel game, split in two:

- `src/` is the verified library. Each module states its behaviour in contracts and
  proves it:
  - `sphere`: triangle indices of the sky sphere;
  - `bits`, `block_vertex`: block vertices packed into two words with `bitfield`;
  - `memory_state`: how a GPU buffer starts out (data, length, usage flags);
  - `ordering`: the float total-order key and the far-to-near draw orders of
    transparent chunks and faces;
  - `controller`: movement keys, block actions and the player's reaction to a frame;
  - `inventory`, `surface`, `post_processor`, `stopwatch`, `sky`: small state machines
    of the user interface and the renderer;
  - `clouds`: the cloud tiles around the player;
  - `culling`: the walk through chunk faces that decides which chunks are drawn, and
    the split of the drawn chunks into opaque and transparent lists;
  - `fx`, `world`, `chunk_pool`: the chunk meshes, kept in `rustc_hash` maps, and the
    rules that decide which worker results reach them.
- `app/` holds what the library cannot: floating-point geometry, image loading, the
  `bytemuck` vertex layouts, and the glue (`app/frame.rs`, `app/chunks.rs`) that turns
  window and server events into the library's events and carries out its decisions.
- `tests/` runs the library on concrete values.
