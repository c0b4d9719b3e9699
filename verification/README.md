# lana_khora

An avatar drawn as a glowing cloud of points.

The library (`src/`) reads the points of a model, prepares them, and decides what is done
with them. It is verified with Verus, against what it states of the calls that it trusts:
`serde_json` (parsing a document and reading its values), `bytemuck::cast_slice`,
`std::str::from_utf8` and `String::push`. Each of these has its contract at the place where
it is declared, in `json`, `lane` and `text`.

- `scalar`, `bytes`, `text`: bit patterns of single precision numbers, little-endian words,
  lines and words of a text.
- `json`, `gltf`: binary glTF (`.glb`, `.vrm`), with its document read by `serde_json`.
- `pcd`: ASCII point clouds (`.pcd`).
- `point`, `sample`: points, and sampling them from a file.
- `cloud`: measuring a cloud, laying it out, finding the eyes of an avatar.
- `camera`, `lane`, `frame`: the orbiting camera, the lane that draws the points, and the
  actions of a frame.

Numbers are carried as their bit patterns. Arithmetic on them is handed in as closures, so
that what the library proves holds for any of them.

The program (`app/`) does the arithmetic, reads files and the environment, and talks to the
Khora engine. The engine and the shader `point.wgsl` are not part of this repository.
