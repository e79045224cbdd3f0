# park_engine

The verified core of a small multi-threaded game engine, written in Verus.

- `src/` is the library. Every function in it carries a contract that Verus
  proves: entity identifiers and maps, the world's entity allocator, the game
  controller, the per-thread event, frame and update buffers, the data that
  update loops swap and share, the fixed-rate update schedule, the network
  packet codec and the server/client replication bookkeeping, the static mesh
  system, the renderer's scene bookkeeping and device selection rules, and the
  audio output settings, and the checks of an OpenXR system. Laws that relate several operations are public proof
  functions whose names start with `law_`.
- `tests/` runs the library on concrete values.
- `app/` is the game client program around the library: the window and its
  input, the clock, the camera and the ground raycast (floating point), the
  UDP sockets, and mesh files.
