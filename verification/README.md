# abyss

The logic of the AbyssBSD component system as a verified library: the
message codec and its envelope, typed wire values and the handle table,
the capability body, component manifests, the interface catalogue, the
authority graph, the broker's session plans and supervision decisions,
the bootstrap bundle and a component's claims on it, the looper's rings
and task bookkeeping, the error messages, the logger's level filter and
line format, and the integer half of the renderer.

- `src/` is the library. Every function in it carries a contract that
  Verus proves; the laws of the library (decoding what was encoded, a
  bundle read back from its handle table, a ring's order, what a built
  graph satisfies, and so on) are public proof functions beside the code
  they speak of.
- `tests/` runs the library on concrete values.
- `app/` is the broker's boot shell and what cannot be proved here:
  reading files, the async plumbing of loopers and capabilities, the
  owned descriptor a bundle carries, and the floating-point rasterizer.
