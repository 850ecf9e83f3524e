use battlesnake_game_types::board::{Cell, CellBoard};
use battlesnake_game_types::food_spawn::FoodSpawnConfig;
use battlesnake_game_types::game_step::step_with_food;

const WIDTH: usize = 11;
const OLD_HEADS: [usize; 4] = [12, 20, 100, 108];
const START_FOOD: [usize; 5] = [22, 32, 88, 98, 60];

/// The 11x11 start-of-game board after every snake has moved right once:
/// each head is one cell right of its start cell, the body stays behind.
fn after_all_move_right() -> CellBoard {
    let mut cells = vec![Cell::Empty; WIDTH * WIDTH];
    let mut heads = Vec::new();
    for (id, &h) in OLD_HEADS.iter().enumerate() {
        cells[h] = Cell::Snake(id as u8);
        cells[h + 1] = Cell::Snake(id as u8);
        heads.push(h + 1);
    }
    for &f in START_FOOD.iter() {
        cells[f] = Cell::Food;
    }
    CellBoard {
        width: WIDTH,
        cells,
        heads,
        healths: vec![99; 4],
    }
}

#[test]
fn test_step_with_food_deterministic() {
    let board1 = after_all_move_right();
    let board2 = after_all_move_right();

    let food_config = FoodSpawnConfig::default();
    let game_seed = 42u64;
    let turn = 1u32;

    let result1 = step_with_food(board1, game_seed, turn, &food_config);
    let result2 = step_with_food(board2, game_seed, turn, &food_config);

    // Same seed + same moves = identical board states
    assert_eq!(result1, result2);
}

#[test]
fn test_step_with_food_different_seeds_produce_different_food() {
    let board1 = after_all_move_right();
    let board2 = after_all_move_right();

    let food_config = FoodSpawnConfig {
        minimum_food: 0,
        food_spawn_chance: 100, // always spawn so we can see the difference
    };

    let result1 = step_with_food(board1, 42, 1, &food_config);
    let result2 = step_with_food(board2, 99, 1, &food_config);

    // Different seeds should produce different food placements
    let food1 = result1.food_positions();
    let food2 = result2.food_positions();
    // Both should complete without panic — food positions may differ
    assert!(!food1.is_empty() || !food2.is_empty());
}

#[test]
fn test_step_preserves_food_minimum() {
    let board = after_all_move_right();

    let food_config = FoodSpawnConfig {
        minimum_food: 3,
        food_spawn_chance: 0,
    };

    let result = step_with_food(board, 42, 1, &food_config);
    let food_count = result.food_positions().len();
    assert!(food_count >= 3, "Expected at least 3 food, got {food_count}");
}

#[test]
fn test_step_with_food_exact_cells() {
    let food_config = FoodSpawnConfig {
        minimum_food: 0,
        food_spawn_chance: 100,
    };
    let result1 = step_with_food(after_all_move_right(), 42, 1, &food_config);
    let result2 = step_with_food(after_all_move_right(), 99, 1, &food_config);
    assert_eq!(result1.food_positions(), vec![22, 32, 60, 88, 98, 115]);
    assert_eq!(result2.food_positions(), vec![22, 32, 60, 88, 93, 98]);
    // Only the cells changed; the snakes are as they were.
    let before = after_all_move_right();
    assert_eq!(result1.heads, before.heads);
    assert_eq!(result1.healths, before.healths);
    assert_eq!(result1.width, before.width);
}

#[test]
fn test_step_with_default_config_keeps_board_when_roll_fails() {
    let result = step_with_food(after_all_move_right(), 42, 1, &FoodSpawnConfig::default());
    assert_eq!(result, after_all_move_right());
}

#[test]
fn test_step_tops_up_to_minimum() {
    let mut board = after_all_move_right();
    for &f in START_FOOD.iter() {
        board.cells[f] = Cell::Empty;
    }
    let food_config = FoodSpawnConfig {
        minimum_food: 4,
        food_spawn_chance: 0,
    };
    let result = step_with_food(board, 12345, 7, &food_config);
    assert_eq!(result.food_positions().len(), 4);
}
