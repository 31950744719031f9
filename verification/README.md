# voxel_core

The core of a small voxel editor: dense 16x16x16 chunks, a sparse world of
chunks, greedy meshing, Bresenham-style brush lines, ray hits, an undo/redo
editor state, a binary save format, and the byte-level framing of binary glTF
and Wavefront OBJ exports. The functions in `src/` are verified with Verus
against contracts over mathematical models (sequences, maps, integers),
except four small trusted wrappers whose contracts are taken on trust:
the calls to `bincode::serialize` and `bincode::deserialize` in
`src/persistence.rs`, to `bytemuck::bytes_of` in `src/gltf.rs`, and to
`serde_json::from_slice` (read at a few fixed fields) in
`src/gltf_import.rs`.

## Layout

- `src/voxel.rs`, `src/coord.rs`: voxel ids and integer points.
- `src/chunk.rs`: a chunk as a sequence of `CHUNK_VOLUME` voxels, with
  get/set/id conversion.
- `src/world.rs`: chunks keyed by chunk position; the world is viewed as a map
  from chunk positions to chunk contents, and reading a voxel gives back what
  was last written there.
- `src/mesher.rs`, `src/mesh.rs`: greedy meshing. The mesh is proved to render
  a set of rectangles that partition the exposed faces of the chunk, each one
  the greedy choice in its slice.
- `src/brush.rs`: integer line rasterisation between two cells.
- `src/face.rs`: the six face directions and their axes.
- `src/raycast.rs`: the first solid cell along a walk of cells.
- `src/editor.rs`: paint modes, brush size and mirror painting, undo/redo
  history with a bounded length, and the demo scene.
- `src/persistence.rs`: the save record (version and voxel ids, encoded with
  bincode) and its round trip.
- `src/gltf.rs`, `src/obj.rs`: binary glTF container assembly and parsing,
  buffer packing and accessor lookup; OBJ face grouping by material.
- `src/gltf_import.rs`: reading a streamed glTF file back: framing, the
  JSON fields it needs, and the words each accessor's buffer view holds.
- `app/`: the command-line front end and everything that touches files,
  JSON or floating point (float ray traversal, camera, colors, vertex data).
- `tests/`: tests of the library on concrete values.
