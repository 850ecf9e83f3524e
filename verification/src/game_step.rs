//! The food phase of a full game turn.
//!
//! After the moves of a turn have been applied, food is spawned with a MINSTD
//! PRNG seeded for the turn, as the Battlesnake rules' `CreateNextBoardState`
//! does.

use vstd::prelude::*;

use crate::board::CellBoard;
use crate::food_spawn::{spawn_food_spec, FoodSpawnConfig};
use crate::minstd::{rng_for_turn, seed_state, turn_seed_spec};

verus! {

/// Finish one game turn on a board whose moves have already been applied:
/// spawn food using a MINSTD PRNG seeded for this turn from `game_seed` and
/// `turn`. Returns the board after the turn.
pub fn step_with_food(
    board: CellBoard,
    game_seed: u64,
    turn: u32,
    food_config: &FoodSpawnConfig,
) -> (r: CellBoard)
    requires
        board.wf(),
    ensures
        r.cells@ == spawn_food_spec(
            board,
            seed_state(turn_seed_spec(game_seed, turn) as i64),
            *food_config,
        ).0,
        r.width == board.width,
        r.heads@ == board.heads@,
        r.healths@ == board.healths@,
        r.wf(),
{
    let mut new_board = board;
    let mut rng = rng_for_turn(game_seed, turn);
    new_board.spawn_food(&mut rng, food_config);
    new_board
}

} // verus!
