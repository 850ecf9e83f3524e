//! Deterministic food spawning using the MINSTD PRNG.
//!
//! The same food spawning logic as the official Battlesnake rules:
//! 1. If the food count is below the minimum, spawn enough to reach it.
//! 2. Otherwise roll the food spawn chance, and spawn 1 if the roll succeeds.
//! 3. Collect the unoccupied points (excluding food, snake cells, and cells
//!    next to living snake heads), in column-major order.
//! 4. Shuffle them with Fisher-Yates.
//! 5. Place food on the first N of them.

use vstd::prelude::*;

use crate::board::{
    food_count, grid_distance, lemma_cell_coords, lemma_cell_index_bound, lemma_food_count_set_food,
    lemma_next_to_by_coordinates, lemma_row_in_grid, Cell, CellBoard,
};
use crate::minstd::{
    intn_result, lemma_shuffle_keeps_distinct, lemma_shuffle_permutes, minstd_step, shuffled,
    MinstdRand,
};

verus! {

/// Configuration for food spawning behavior.
#[derive(Debug, Copy, Clone)]
pub struct FoodSpawnConfig {
    /// Minimum food that must be on the board at all times.
    /// Default in standard games: 1
    pub minimum_food: usize,
    /// Chance (0-100) of spawning a new food each turn: a roll
    /// `r = intn(100)` spawns one food when `100 - r < food_spawn_chance`, so
    /// a chance of `c` succeeds on `c - 1` of the 100 possible rolls.
    /// Default in standard games: 15
    pub food_spawn_chance: u32,
}

impl Default for FoodSpawnConfig {
    fn default() -> (r: Self)
        ensures
            r.minimum_food == 1,
            r.food_spawn_chance == 15,
    {
        FoodSpawnConfig { minimum_food: 1, food_spawn_chance: 15 }
    }
}

/// How much food a turn asks for, and the generator state after deciding it.
/// Below the minimum the shortfall is asked for without touching the
/// generator; otherwise, with a nonzero chance, one roll `r = intn(100)` is
/// made and one food is asked for when `100 - r < chance`.
pub open spec fn food_needed_spec(cells: Seq<Cell>, state: nat, config: FoodSpawnConfig) -> (
    nat,
    nat,
) {
    let current = food_count(cells);
    if current < config.minimum_food {
        ((config.minimum_food - current) as nat, state)
    } else if config.food_spawn_chance > 0 {
        let roll = intn_result(state, 100);
        if 100 - roll < config.food_spawn_chance {
            (1, minstd_step(state))
        } else {
            (0, minstd_step(state))
        }
    } else {
        (0, state)
    }
}

/// The cells that receive food when `n` are asked for: the first
/// `min(n, candidates)` of the shuffled food candidates; with the generator
/// state after the shuffle.
pub open spec fn chosen_food_cells(board: CellBoard, state: nat, n: nat) -> (nat, Seq<usize>) {
    let points = board.food_candidates();
    let sh = shuffled(state, points);
    let k = if n < points.len() {
        n
    } else {
        points.len()
    };
    (sh.0, sh.1.take(k as int))
}

/// `cells` with every index in `chosen` set to food.
pub open spec fn place_food_spec(cells: Seq<Cell>, chosen: Seq<usize>) -> Seq<Cell> {
    Seq::new(
        cells.len(),
        |c: int|
            if chosen.contains(c as usize) {
                Cell::Food
            } else {
                cells[c]
            },
    )
}

/// The cells and the generator state after one food spawning pass.
pub open spec fn spawn_food_spec(board: CellBoard, state: nat, config: FoodSpawnConfig) -> (
    Seq<Cell>,
    nat,
) {
    let needed = food_needed_spec(board.cells@, state, config);
    if needed.0 > 0 {
        let chosen = chosen_food_cells(board, needed.1, needed.0);
        (place_food_spec(board.cells@, chosen.1), chosen.0)
    } else {
        (board.cells@, needed.1)
    }
}

/// Cell `a` comes before cell `b` in column-major order on a grid of width
/// `w`: an earlier column, or the same column and an earlier row.
pub open spec fn column_major_before(a: int, b: int, w: int) -> bool {
    ||| a % w < b % w
    ||| (a % w == b % w && a / w < b / w)
}

/// Cell `c` lies in a column before `x`, or in column `x` above row `y`.
pub open spec fn before_column_row(c: int, w: int, x: int, y: int) -> bool {
    ||| c % w < x
    ||| (c % w == x && c / w < y)
}

/// A prefix of the candidate list holds, in strictly increasing column-major
/// order and each once, exactly the candidates of the columns before `x` and
/// of column `x` above row `y`.
pub proof fn lemma_candidates_prefix(board: CellBoard, x: nat, y: nat)
    requires
        board.wf(),
        (x < board.width && y <= board.width) || (x == board.width && y == 0),
    ensures
        ({
            let p = board.candidates_prefix(x, y);
            let w = board.width as int;
            &&& forall|k: int|
                0 <= k < p.len() ==> {
                    &&& (#[trigger] p[k] as int) < w * w
                    &&& board.food_candidate(p[k] as int)
                    &&& before_column_row(p[k] as int, w, x as int, y as int)
                }
            &&& forall|c: int|
                0 <= c < w * w && before_column_row(c, w, x as int, y as int)
                    && #[trigger] board.food_candidate(c) ==> p.contains(c as usize)
            &&& forall|i: int, j: int|
                0 <= i < j < p.len() ==> column_major_before(
                    #[trigger] p[i] as int,
                    #[trigger] p[j] as int,
                    w,
                )
            &&& p.no_duplicates()
        }),
    decreases x, y,
{
    let w = board.width as int;
    assert(board.cells@.len() == board.cells.len());
    if y == 0 {
        if x > 0 {
            lemma_candidates_prefix(board, (x - 1) as nat, board.width as nat);
            assert forall|c: int|
                0 <= c < w * w && before_column_row(c, w, x as int, 0) implies before_column_row(
                c,
                w,
                x - 1,
                w,
            ) by {
                lemma_row_in_grid(c, w);
            }
        }
    } else {
        lemma_candidates_prefix(board, x, (y - 1) as nat);
        let prev = board.candidates_prefix(x, (y - 1) as nat);
        let c0 = (y - 1) * w + x;
        lemma_cell_coords(x as int, y - 1, w);
        lemma_cell_index_bound(x as int, y - 1, w);
        assert((c0 as usize) as int == c0);
        let p = board.candidates_prefix(x, y);
        assert forall|c: int|
            0 <= c < w * w && before_column_row(c, w, x as int, y as int)
                && #[trigger] board.food_candidate(c) implies p.contains(c as usize) by {
            if before_column_row(c, w, x as int, y - 1) {
                assert(prev.contains(c as usize));
                let k = choose|k: int| 0 <= k < prev.len() && prev[k] == c as usize;
                if board.food_candidate(c0) {
                    assert(p[k] == c as usize);
                }
            } else {
                lemma_row_in_grid(c, w);
                assert(c == c0);
                assert(p[p.len() - 1] == c0 as usize);
            }
        }
        if board.food_candidate(c0) {
            assert forall|k: int| 0 <= k < prev.len() implies prev[k] != c0 as usize by {
                if prev[k] == c0 as usize {
                    assert((prev[k] as int) % w == x);
                }
            }
            assert forall|i: int, j: int|
                0 <= i < p.len() && 0 <= j < p.len() && i != j implies p[i] != p[j] by {
                if i < prev.len() && j < prev.len() {
                    assert(p[i] == prev[i] && p[j] == prev[j]);
                }
            }
            assert forall|i: int, j: int| 0 <= i < j < p.len() implies column_major_before(
                #[trigger] p[i] as int,
                #[trigger] p[j] as int,
                w,
            ) by {
                assert(p[i] == prev[i]);
                if j < prev.len() {
                    assert(p[j] == prev[j]);
                }
            }
        }
    }
}

/// The candidate list holds every food candidate of the board and nothing
/// else, each once, in strictly increasing column-major order (column first,
/// then row).
pub proof fn lemma_food_candidates(board: CellBoard)
    requires
        board.wf(),
    ensures
        board.food_candidates().no_duplicates(),
        forall|k: int|
            0 <= k < board.food_candidates().len() ==> {
                &&& (#[trigger] board.food_candidates()[k] as int) < board.cells@.len()
                &&& board.food_candidate(board.food_candidates()[k] as int)
            },
        forall|c: int|
            0 <= c < board.cells@.len() ==> (board.food_candidates().contains(c as usize)
                <==> #[trigger] board.food_candidate(c)),
        forall|i: int, j: int|
            0 <= i < j < board.food_candidates().len() ==> column_major_before(
                #[trigger] board.food_candidates()[i] as int,
                #[trigger] board.food_candidates()[j] as int,
                board.width as int,
            ),
{
    let p = board.food_candidates();
    let w = board.width as int;
    lemma_candidates_prefix(board, board.width as nat, 0);
    assert(board.cells@.len() == board.cells.len());
    assert forall|c: int| 0 <= c < board.cells@.len() implies (p.contains(c as usize)
        <==> #[trigger] board.food_candidate(c)) by {
        lemma_row_in_grid(c, w);
        if p.contains(c as usize) {
            let k = choose|k: int| 0 <= k < p.len() && p[k] == c as usize;
            assert((c as usize) as int == c);
            assert(board.food_candidate(p[k] as int));
        }
    }
}

/// Setting one more chosen cell to food extends the placement by that cell.
proof fn lemma_place_food_step(cells: Seq<Cell>, t: Seq<usize>, k: int)
    requires
        cells.len() <= usize::MAX,
        0 <= k < t.len(),
        (t[k] as int) < cells.len(),
    ensures
        place_food_spec(cells, t.take(k + 1)) =~= place_food_spec(cells, t.take(k)).update(
            t[k] as int,
            Cell::Food,
        ),
{
    assert forall|c: int| 0 <= c < cells.len() implies (#[trigger] t.take(k + 1).contains(c as usize) <==> (
    t.take(k).contains(c as usize) || t[k] == c as usize)) by {
        if t.take(k + 1).contains(c as usize) {
            let i = choose|i: int| 0 <= i < k + 1 && #[trigger] t.take(k + 1)[i] == c as usize;
            if i < k {
                assert(t.take(k)[i] == c as usize);
            }
        }
        if t.take(k).contains(c as usize) {
            let i = choose|i: int| 0 <= i < k && #[trigger] t.take(k)[i] == c as usize;
            assert(t.take(k + 1)[i] == c as usize);
        }
        if t[k] == c as usize {
            assert(t.take(k + 1)[k] == c as usize);
        }
        assert((c as usize) as int == c);
    }

}

/// Placing food on distinct non-food cells adds one food per cell.
pub proof fn lemma_place_food_count(cells: Seq<Cell>, chosen: Seq<usize>)
    requires
        cells.len() <= usize::MAX,
        chosen.no_duplicates(),
        forall|k: int|
            0 <= k < chosen.len() ==> (#[trigger] chosen[k] as int) < cells.len() && !(
            cells[chosen[k] as int] is Food),
    ensures
        food_count(place_food_spec(cells, chosen)) == food_count(cells) + chosen.len(),
    decreases chosen.len(),
{
    if chosen.len() == 0 {
        assert(place_food_spec(cells, chosen) =~= cells);
    } else {
        let k = chosen.len() - 1;
        let rest = chosen.take(k);
        assert(rest.no_duplicates());
        lemma_place_food_count(cells, rest);
        lemma_place_food_step(cells, chosen, k);
        assert(chosen.take(k + 1) =~= chosen);
        let last = chosen[k] as int;
        assert(!rest.contains(chosen[k]));
        assert(place_food_spec(cells, rest)[last] == cells[last]);
        lemma_food_count_set_food(place_food_spec(cells, rest), last);
    }
}

/// The chosen cells are distinct food candidates, as many as asked for when
/// there are enough candidates, and all of them otherwise.
pub proof fn lemma_chosen_food_cells(board: CellBoard, state: nat, n: nat)
    requires
        board.wf(),
    ensures
        ({
            let chosen = chosen_food_cells(board, state, n).1;
            &&& chosen.no_duplicates()
            &&& chosen.len() == if n < board.food_candidates().len() {
                n
            } else {
                board.food_candidates().len()
            }
            &&& forall|k: int|
                0 <= k < chosen.len() ==> {
                    &&& (#[trigger] chosen[k] as int) < board.cells@.len()
                    &&& board.food_candidate(chosen[k] as int)
                }
        }),
{
    let points = board.food_candidates();
    lemma_food_candidates(board);
    lemma_shuffle_permutes(state, points);
    lemma_shuffle_keeps_distinct(state, points);
    let sh = shuffled(state, points).1;
    let chosen = chosen_food_cells(board, state, n).1;
    assert forall|k: int| 0 <= k < chosen.len() implies {
        &&& (#[trigger] chosen[k] as int) < board.cells@.len()
        &&& board.food_candidate(chosen[k] as int)
    } by {
        assert(chosen[k] == sh[k]);
        assert(sh.contains(sh[k]));
        assert(points.contains(sh[k]));
    }
}

/// Food spawning only ever turns an empty cell that no living snake's head is
/// next to into food: snake cells and existing food are never changed, and
/// no food appears next to a living snake's head.
pub proof fn lemma_spawn_food_only_fills_free_cells(
    board: CellBoard,
    state: nat,
    config: FoodSpawnConfig,
)
    requires
        board.wf(),
    ensures
        ({
            let after = spawn_food_spec(board, state, config).0;
            &&& after.len() == board.cells@.len()
            &&& forall|c: int|
                0 <= c < after.len() && #[trigger] after[c] != board.cells@[c] ==> {
                    &&& board.cells@[c] is Empty
                    &&& after[c] is Food
                    &&& !board.near_live_head(c)
                }
        }),
{
    let needed = food_needed_spec(board.cells@, state, config);
    if needed.0 > 0 {
        lemma_chosen_food_cells(board, needed.1, needed.0);
        let chosen = chosen_food_cells(board, needed.1, needed.0).1;
        let after = spawn_food_spec(board, state, config).0;
        assert forall|c: int| 0 <= c < after.len() && #[trigger] after[c] != board.cells@[c] implies {
            &&& board.cells@[c] is Empty
            &&& after[c] is Food
            &&& !board.near_live_head(c)
        } by {
            assert(chosen.contains(c as usize));
            let k = choose|k: int| 0 <= k < chosen.len() && chosen[k] == c as usize;
            assert(board.cells@.len() == board.cells.len());
            assert((c as usize) as int == c);
            assert(board.food_candidate(chosen[k] as int));
        }
    }
}

/// Food spawning adds exactly `min(needed, candidates)` food, where `needed`
/// is what the turn asks for; so a board below the minimum is brought up to
/// the minimum whenever there is room, and food is never removed.
pub proof fn lemma_spawn_food_count(board: CellBoard, state: nat, config: FoodSpawnConfig)
    requires
        board.wf(),
    ensures
        ({
            let before = food_count(board.cells@);
            let after = food_count(spawn_food_spec(board, state, config).0);
            let needed = food_needed_spec(board.cells@, state, config).0;
            let room = board.food_candidates().len();
            &&& after == before + if needed < room {
                needed
            } else {
                room
            }
            &&& before < config.minimum_food && config.minimum_food <= before + room ==> after
                == config.minimum_food
            &&& before < config.minimum_food ==> after == if config.minimum_food <= before
                + room {
                config.minimum_food as int
            } else {
                (before + room) as int
            }
            &&& after >= before
        }),
{
    let needed = food_needed_spec(board.cells@, state, config);
    if needed.0 > 0 {
        lemma_chosen_food_cells(board, needed.1, needed.0);
        let chosen = chosen_food_cells(board, needed.1, needed.0).1;
        assert(board.cells@.len() == board.cells.len());
        lemma_place_food_count(board.cells@, chosen);
    }
}

/// How the amount of food asked for is decided: below the minimum the
/// shortfall, with no generator call; otherwise no food and no call when the
/// chance is 0; otherwise exactly one generator step, and one food exactly
/// when the roll `r = intn(100)` exceeds `100 - chance` (so a chance of
/// `c <= 100` succeeds on `c - 1` of the 100 possible rolls).
pub proof fn lemma_food_needed_cases(cells: Seq<Cell>, state: nat, config: FoodSpawnConfig)
    ensures
        ({
            let needed = food_needed_spec(cells, state, config);
            let current = food_count(cells);
            let roll = intn_result(state, 100);
            &&& current < config.minimum_food ==> needed.0 == config.minimum_food - current
                && needed.1 == state
            &&& current >= config.minimum_food && config.food_spawn_chance == 0 ==> needed.0 == 0
                && needed.1 == state
            &&& current >= config.minimum_food && config.food_spawn_chance > 0 ==> {
                &&& needed.1 == minstd_step(state)
                &&& roll < 100
                &&& (needed.0 == 1 <==> roll > 100 - config.food_spawn_chance)
                &&& (needed.0 == 0 <==> roll <= 100 - config.food_spawn_chance)
            }
        }),
{
}

/// When a turn asks for at least as much food as there are candidates, every
/// candidate receives food; when there are no candidates, nothing changes.
pub proof fn lemma_spawn_food_fills_all_when_short(
    board: CellBoard,
    state: nat,
    config: FoodSpawnConfig,
)
    requires
        board.wf(),
        food_needed_spec(board.cells@, state, config).0 >= board.food_candidates().len(),
    ensures
        ({
            let after = spawn_food_spec(board, state, config).0;
            &&& forall|c: int|
                0 <= c < board.cells@.len() && #[trigger] board.food_candidate(c) ==> after[c]
                    is Food
            &&& board.food_candidates().len() == 0 ==> after == board.cells@
        }),
{
    let needed = food_needed_spec(board.cells@, state, config);
    let points = board.food_candidates();
    lemma_food_candidates(board);
    if needed.0 > 0 {
        let sh = shuffled(needed.1, points);
        lemma_shuffle_permutes(needed.1, points);
        lemma_shuffle_keeps_distinct(needed.1, points);
        let chosen = chosen_food_cells(board, needed.1, needed.0).1;
        assert(chosen =~= sh.1);
        let after = spawn_food_spec(board, state, config).0;
        assert forall|c: int|
            0 <= c < board.cells@.len() && #[trigger] board.food_candidate(c) implies after[c]
            is Food by {
            assert(points.contains(c as usize));
            assert(chosen.contains(c as usize));
        }
        if points.len() == 0 {
            assert forall|c: int| 0 <= c < board.cells@.len() implies after[c] == board.cells@[c] by {
                assert(!chosen.contains(c as usize));
            }
            assert(after =~= board.cells@);
        }
    }
}

/// No living snake's head lies at grid distance 1 from cell `c`.
pub open spec fn clear_of_live_heads(board: CellBoard, c: int) -> bool {
    forall|i: int|
        0 <= i < board.heads@.len() && board.healths@[i] != 0 ==> #[trigger] grid_distance(
            board.heads@[i] as int,
            c,
            board.width as int,
        ) != 1
}

/// The free cells, by coordinates: a cell of the board is a food candidate
/// exactly when it is empty and no living snake's head is at grid distance 1
/// from it. Heads of dead snakes exclude nothing, and nothing wraps around an
/// edge.
pub proof fn lemma_food_candidates_by_coordinates(board: CellBoard)
    requires
        board.wf(),
    ensures
        forall|c: int|
            0 <= c < board.cells@.len() ==> (#[trigger] board.food_candidates().contains(c as usize)
                <==> (board.cells@[c] is Empty && clear_of_live_heads(board, c))),
{
    let w = board.width as int;
    lemma_food_candidates(board);
    assert forall|c: int| 0 <= c < board.cells@.len() implies (#[trigger] board.food_candidates().contains(
        c as usize,
    ) <==> (board.cells@[c] is Empty && clear_of_live_heads(board, c))) by {
        if board.near_live_head(c) {
            let i = choose|i: int|
                0 <= i < board.heads@.len() && #[trigger] board.live_head_next_to(i, c);
            lemma_next_to_by_coordinates(board.heads@[i] as int, c, w);
            assert(grid_distance(board.heads@[i] as int, c, w) == 1);
        }
        if !clear_of_live_heads(board, c) {
            let i = choose|i: int|
                0 <= i < board.heads@.len() && board.healths@[i] != 0 && #[trigger] grid_distance(
                    board.heads@[i] as int,
                    c,
                    w,
                ) == 1;
            lemma_next_to_by_coordinates(board.heads@[i] as int, c, w);
            assert(board.live_head_next_to(i, c));
        }
        assert(board.food_candidate(c) == (board.cells@[c] is Empty && !board.near_live_head(c)));
        assert(board.food_candidates().contains(c as usize) == board.food_candidate(c));
        assert(board.near_live_head(c) == !clear_of_live_heads(board, c));
    }
}

/// Food spawning by coordinates: a cell only ever changes from empty to food,
/// and only when no living head is at grid distance 1 from it; and when a
/// turn asks for at least as much food as there are free cells, every empty
/// cell with no living head at grid distance 1 receives food.
pub proof fn lemma_spawn_food_by_coordinates(board: CellBoard, state: nat, config: FoodSpawnConfig)
    requires
        board.wf(),
    ensures
        ({
            let after = spawn_food_spec(board, state, config).0;
            &&& after.len() == board.cells@.len()
            &&& forall|c: int|
                0 <= c < after.len() && #[trigger] after[c] != board.cells@[c] ==> {
                    &&& board.cells@[c] is Empty
                    &&& after[c] is Food
                    &&& clear_of_live_heads(board, c)
                }
            &&& food_needed_spec(board.cells@, state, config).0 >= board.food_candidates().len()
                ==> forall|c: int|
                0 <= c < after.len() && board.cells@[c] is Empty && clear_of_live_heads(board, c)
                    ==> #[trigger] after[c] is Food
        }),
{
    lemma_food_candidates_by_coordinates(board);
    lemma_food_candidates(board);
    lemma_spawn_food_only_fills_free_cells(board, state, config);
    let after = spawn_food_spec(board, state, config).0;
    assert forall|c: int|
        0 <= c < after.len() && #[trigger] after[c] != board.cells@[c] implies clear_of_live_heads(
        board,
        c,
    ) by {
        assert(board.food_candidate(c));
        assert(board.food_candidates().contains(c as usize));
    }
    if food_needed_spec(board.cells@, state, config).0 >= board.food_candidates().len() {
        lemma_spawn_food_fills_all_when_short(board, state, config);
        assert forall|c: int|
            0 <= c < after.len() && board.cells@[c] is Empty && clear_of_live_heads(
                board,
                c,
            ) implies #[trigger] after[c] is Food by {
            assert(board.food_candidates().contains(c as usize));
            assert(board.food_candidate(c));
        }
    }
}

impl CellBoard {
    /// Spawn food deterministically using the provided PRNG.
    ///
    /// This implements the official Battlesnake food spawning rules:
    /// - If the current food count is below `minimum_food`, spawn enough to
    ///   reach the minimum.
    /// - Otherwise, with a nonzero `food_spawn_chance`, roll `r = intn(100)`
    ///   and spawn 1 food when `100 - r < food_spawn_chance` (a chance of `c`
    ///   succeeds on `c - 1` of the 100 possible rolls).
    /// - Food is placed on randomly selected unoccupied cells (not food, not
    ///   snake, not next to any living snake's head).
    ///
    /// The `rng` should be a MINSTD PRNG seeded for the current turn via
    /// `minstd::rng_for_turn(game_seed, turn)`.
    ///
    /// RNG call order: one `rng.intn(100)` for the spawn chance (only when the
    /// minimum is already met and the chance is nonzero), then, if food is
    /// needed, one `rng.shuffle` of the unoccupied points.
    pub fn spawn_food(&mut self, rng: &mut MinstdRand, config: &FoodSpawnConfig)
        requires
            old(self).wf(),
        ensures
            (final(self).cells@, final(rng)@) == spawn_food_spec(*old(self), old(rng)@, *config),
            final(self).width == old(self).width,
            final(self).heads@ == old(self).heads@,
            final(self).healths@ == old(self).healths@,
            final(self).wf(),
    {
        let food_needed = self.check_food_needed(rng, config);
        if food_needed > 0 {
            self.place_food_randomly(rng, food_needed);
        }
    }

    fn check_food_needed(&self, rng: &mut MinstdRand, config: &FoodSpawnConfig) -> (r: usize)
        ensures
            (r as nat, final(rng)@) == food_needed_spec(self.cells@, old(rng)@, *config),
    {
        let current_food = self.food_positions().len();

        if current_food < config.minimum_food {
            return config.minimum_food - current_food;
        }

        if config.food_spawn_chance > 0 && (100 - rng.intn(100) as u32) < config.food_spawn_chance {
            return 1;
        }

        0
    }

    fn place_food_randomly(&mut self, rng: &mut MinstdRand, n: usize)
        requires
            old(self).wf(),
        ensures
            ({
                let chosen = chosen_food_cells(*old(self), old(rng)@, n as nat);
                &&& final(self).cells@ == place_food_spec(old(self).cells@, chosen.1)
                &&& final(rng)@ == chosen.0
            }),
            final(self).width == old(self).width,
            final(self).heads@ == old(self).heads@,
            final(self).healths@ == old(self).healths@,
    {
        let ghost old_board = *self;
        let mut unoccupied = self.get_unoccupied_points_for_food();
        let n = if n < unoccupied.len() {
            n
        } else {
            unoccupied.len()
        };

        rng.shuffle(unoccupied.as_mut_slice());

        proof {
            lemma_chosen_food_cells(old_board, old(rng)@, unoccupied@.len() as nat);
            assert(unoccupied@.take(unoccupied@.len() as int) =~= unoccupied@);
            assert(old_board.cells@.len() == old_board.cells.len());
            assert(place_food_spec(old_board.cells@, unoccupied@.take(0)) =~= old_board.cells@);
        }
        let mut k: usize = 0;
        while k < n
            invariant
                old_board.wf(),
                n <= unoccupied@.len(),
                unoccupied@ == shuffled(old(rng)@, old_board.food_candidates()).1,
                forall|i: int|
                    0 <= i < unoccupied@.len() ==> (#[trigger] unoccupied@[i] as int)
                        < old_board.cells@.len(),
                old_board.cells@.len() <= usize::MAX,
                k <= n,
                self.width == old_board.width,
                self.heads@ == old_board.heads@,
                self.healths@ == old_board.healths@,
                self.cells@ == place_food_spec(old_board.cells@, unoccupied@.take(k as int)),
            decreases n - k,
        {
            let cell_idx = unoccupied[k];
            proof {
                lemma_place_food_step(old_board.cells@, unoccupied@, k as int);
            }
            self.cells.set(cell_idx, Cell::Food);
            k = k + 1;
        }
    }

    /// Get unoccupied points suitable for food placement.
    ///
    /// Excludes food cells, snake cells, and cells next to any living
    /// snake's head. Iterates in column-major order (x: 0..width, y:
    /// 0..height), as the Go rules' `GetUnoccupiedPoints` does.
    fn get_unoccupied_points_for_food(&self) -> (r: Vec<usize>)
        requires
            self.wf(),
        ensures
            r@ == self.food_candidates(),
    {
        let width = self.width;
        let n = self.cells.len();

        // Mark the cells next to living snake heads.
        let mut head_adjacent: Vec<bool> = vec![false; n];
        let num_snakes = self.heads.len();
        let mut snake_idx: usize = 0;
        while snake_idx < num_snakes
            invariant
                self.wf(),
                width == self.width,
                n == self.cells@.len(),
                num_snakes == self.heads@.len(),
                snake_idx <= num_snakes,
                head_adjacent@.len() == n,
                forall|c: int|
                    0 <= c < n ==> (head_adjacent@[c] <==> self.near_live_head_among(
                        snake_idx as int,
                        c,
                    )),
            decreases num_snakes - snake_idx,
        {
            let ghost prev = head_adjacent@;
            if self.healths[snake_idx] != 0 {
                let head = self.heads[snake_idx];
                let x = head % width;
                let y = head / width;
                if y < width - 1 {
                    proof {
                        lemma_cell_index_bound(x as int, (y + 1) as int, width as int);
                    }
                    head_adjacent.set((y + 1) * width + x, true);
                }
                if 1 <= y && y - 1 < width {
                    proof {
                        lemma_cell_index_bound(x as int, (y - 1) as int, width as int);
                    }
                    head_adjacent.set((y - 1) * width + x, true);
                }
                if 1 <= x && y < width {
                    proof {
                        lemma_cell_index_bound((x - 1) as int, y as int, width as int);
                    }
                    head_adjacent.set(y * width + (x - 1), true);
                }
                if x < width - 1 && y < width {
                    proof {
                        lemma_cell_index_bound((x + 1) as int, y as int, width as int);
                    }
                    head_adjacent.set(y * width + (x + 1), true);
                }
            }
            proof {
                assert forall|c: int| 0 <= c < n implies (head_adjacent@[c]
                    <==> self.near_live_head_among(snake_idx + 1, c)) by {
                    if self.live_head_next_to(snake_idx as int, c) {
                        assert(head_adjacent@[c]);
                    }
                    if self.near_live_head_among(snake_idx + 1, c) {
                        let i = choose|i: int|
                            0 <= i < snake_idx + 1 && #[trigger] self.live_head_next_to(i, c);
                        if i < snake_idx {
                            assert(self.near_live_head_among(snake_idx as int, c));
                        }
                    }
                    if prev[c] {
                        let i = choose|i: int|
                            0 <= i < snake_idx && #[trigger] self.live_head_next_to(i, c);
                        assert(self.live_head_next_to(i, c));
                    }
                }
            }
            snake_idx = snake_idx + 1;
        }

        // Collect unoccupied points in column-major order (x then y).
        let mut result: Vec<usize> = Vec::new();
        let mut x: usize = 0;
        while x < width
            invariant
                self.wf(),
                width == self.width,
                n == self.cells@.len(),
                num_snakes == self.heads@.len(),
                head_adjacent@.len() == n,
                forall|c: int|
                    0 <= c < n ==> (head_adjacent@[c] <==> self.near_live_head(c)),
                x <= width,
                result@ == self.candidates_prefix(x as nat, 0),
            decreases width - x,
        {
            let mut y: usize = 0;
            while y < width
                invariant
                    self.wf(),
                    width == self.width,
                    n == self.cells@.len(),
                    num_snakes == self.heads@.len(),
                    head_adjacent@.len() == n,
                    forall|c: int|
                        0 <= c < n ==> (head_adjacent@[c] <==> self.near_live_head(c)),
                    x < width,
                    y <= width,
                    result@ == self.candidates_prefix(x as nat, y as nat),
                decreases width - y,
            {
                proof {
                    lemma_cell_index_bound(x as int, y as int, width as int);
                }
                let idx = y * width + x;
                if self.cells[idx].is_empty() && !head_adjacent[idx] {
                    result.push(idx);
                }
                y = y + 1;
            }
            x = x + 1;
        }
        result
    }
}

} // verus!
