# torxel_engine

Core of a voxel world engine whose world wraps around on X and Z (a torus of
256 x 256 cells), written in Verus: the data structures and rules carry
contracts that Verus proves. The world is one chunk (64 cells) high, and a Y
coordinate outside 0..64 is reduced modulo 64, so the world also repeats along
Y.

- `src/voxel/cell.rs`: materials, flag bits and the 48-byte cell.
- `src/voxel/chunk.rs`: 16 x 64 x 16 chunks, their packed position keys,
  wrapped access and statistics.
- `src/voxel/world.rs`: the chunk manager; world cells, chunk creation,
  pooling and clearing.
- `src/utils/torus_math.rs`: coordinate wrapping and toroidal distances.
- `src/serialization/save_format.rs`: the save file's frames and CRC-32
  footer, the byte format of chunks, header checks and the ordering of saves.
- `src/render/mesh_faces.rs`: which faces of a chunk's blocks are visible.
- `app/`: the Bevy application: windows, input, menus, meshes as vertex
  data, noise-based terrain generation, files on disk and the floating-point
  unit conversions of cells.
- `tests/`: tests of the library.
