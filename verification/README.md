# kami_engine

The exact-arithmetic core of the Kami game engine, written in Verus: every
function in `src/` carries a `requires`/`ensures` contract that Verus proves,
and the laws the engine keeps across calls are stated as public proof
functions.

- `src/addons.rs` — island services: leaderboard (stable ranking by score),
  daily bonus streaks, missions, seeded gacha draws, energy, telemetry buffer.
- `src/arena.rs` — arena scoreboard and its kill ranking.
- `src/battle_royale.rs` — player health, shield and materials, structures,
  weapon slots, and the match state driven by hits and by the events the
  real-valued clock reports (bus, storm, down timers, building).
- `src/ketsu.rs` — the gorilla-sneaking game's phases and its round rules
  (score, combo, catches, waves, high score) as an event-driven state machine.
- `src/voxel.rs` — voxel chunks, majority down-sampling, the face-visibility
  mask of a layer (with neighbour-chunk culling) and greedy face merging.
- `src/brainrot.rs`, `src/genesis.rs` and the small modules — character
  stages, solver table, articulation degree-of-freedom lookup, the
  breadth-first link order of an articulated system, enums.
- `src/search.rs`, `src/ranking.rs` — first-match, count and stable-sort
  specifications with their lemmas.

`app/` holds what Verus does not check: serialisable copies of the records,
and the floating-point loops (storm, bus, positions, movement) that drive the
verified state machines.  `tests/` exercises the library on concrete values.
