# thcato

Verified game logic for a VR sandbox in which the player roams a terrain,
picks up tools and plays with small creatures.

`src/` is the library, verified with Verus:

- `option_vec` — `OptionVec<T>`, a vector of optional slots whose items keep
  their index; inserting fills the lowest free slot. Its laws (slots are
  stable, a freed slot is reused first, counts move by one) are proof
  functions in the same file.
- `structs` — `EntityList<T>` (slots plus a selection), `ClickAction`, and
  `Configuration`: reading and writing the `name = value` settings file, with
  the proof that a written file reads back to the same settings.
- `option_table` — `OptionTable<V>`, the name-to-value table behind the
  settings, each name stored once.
- `text` — whitespace splitting, decimal reading and writing, value-token
  classification.
- `collision` — the binary terrain collision-mesh format (`.ozt`).
- `gadget`, `gamestate` — tool cycles, the jump counter, deleting a selected
  object.
- `audio` — the decisions of the audio thread, as a step function from loop
  state and event to next state and action: which source plays a sound
  effect (never more than 64 sources), which one stops, play/pause, when
  music frames are queued and started, stereo sample pairing.
- `render`, `routines` — debug-view switches, post-processing work-group
  counts, radio-button choice, unloading listed entity slots, the skybox
  directory listing, and the byte layout of the entity file that the level
  loader reads and the level editor saves.

`app/` is the program around it: file and device I/O, the audio and network
threads, OpenXR plumbing, and the floating-point geometry.

`tests/` runs the library on concrete inputs.
