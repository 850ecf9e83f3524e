# battlesnake_game_types (food spawning)

Deterministic Battlesnake food spawning, written in Verus.

- `src/minstd.rs`: the MINSTD Park-Miller generator (`MinstdRand`), the
  splitmix64-based per-turn seed (`turn_seed`, `rng_for_turn`) and the
  Fisher-Yates shuffle, with spec functions for every step and lemmas that the
  state stays in `[1, 2^31 - 2]` and that a shuffle is a permutation.
- `src/board.rs`: the board model (`Cell`, `CellBoard`): a square grid stored
  row by row, with the head cell and health of every snake slot.
- `src/food_spawn.rs`: `FoodSpawnConfig` and `CellBoard::spawn_food`, whose
  contract gives the exact resulting cells and generator state, with lemmas
  that food only lands on free cells away from living heads and that the food
  count grows by exactly `min(needed, free cells)`.
- `src/game_step.rs`: `step_with_food`, the food phase of a turn, seeded from
  the game seed and turn number.

`tests/` runs the library on concrete boards and seeds.
