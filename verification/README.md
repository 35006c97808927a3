# arch

The voxel-world logic of a digging game, as a verified library.

- `src/` is the library, verified by Verus; its public functions carry
  contracts: voxel kinds and their properties, 64³ chunks with their bit masks,
  the chunked world (`Voxels`) with its read-after-write and batching laws,
  integer boxes and their splitting and merging, the falling-sand step and
  its chunk-parallel slices, greedy-mesh decoding and texture planning,
  smoothed meshing of dense grids, and small pieces of game state (the
  re-mesh queue, camera switching, weighted box picking, fence layout).
- Calls into `binary-greedy-meshing`, `bevy_platform`, `dashmap` and `rand`
  stand behind a few trusted declarations whose doc comments say what they
  claim. The health overrides of a chunk, the world's set of changed
  chunks, the simulation jobs and the membership set of the re-mesh queue
  live in `bevy_platform` hash collections seen through such declarations;
  the world's chunk table is a vector in which no chunk position occurs
  twice.
- `tests/` exercises the library on concrete values.
- `app/` is a headless program around the library: floating-point work
  (ray traversal, shapes, noise terrain, materials), threads, and the
  serializable copies of the voxel kinds.
