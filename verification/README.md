# Ryggattack rules library

The game rules of Ryggattack, a local multiplayer arena game on rails, as a
Verus library: every function in `src/` carries a contract that Verus proves,
resting on one trusted item, the specification of std's `<[T]>::swap` (in
`rng`). The clock that seeds a new map is read by the game, which hands the
reading to `RailMap::from_clock`.

| Module | What it holds |
| --- | --- |
| `rng` | The xorshift generator every map, forest and blast is drawn from |
| `graph`, `union_find` | Walks over track, and the disjoint sets that build a spanning tree |
| `map` | Generating the 5 × 5 rail network: connected, no dead ends, extra loops |
| `path` | Routes along track and through junctions, and the exit a cart takes |
| `roster`, `latch`, `lobby` | Seats, device edges, and the join lobby |
| `nav` | Menu input merged across devices, and the menu highlight |
| `game` | Missile contacts, scoring, the winner, restarts, menu buttons |
| `scenery` | Prop measurements, weighted draws, and the chain of blasts |
| `settings` | Video settings, presets, their saved form, and the low frame-rate hint |
| `batch` | Index bookkeeping for welding meshes, one batch per material |

`app/` is the Bevy game around the library: the window, rendering, reading
keyboards and gamepads, floating-point geometry, and browser storage.
`tests/` runs the library on concrete values.
