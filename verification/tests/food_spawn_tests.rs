use battlesnake_game_types::board::{Cell, CellBoard};
use battlesnake_game_types::food_spawn::FoodSpawnConfig;
use battlesnake_game_types::minstd::MinstdRand;

const WIDTH: usize = 11;
const HEADS: [usize; 4] = [12, 20, 100, 108];
const START_FOOD: [usize; 5] = [22, 32, 88, 98, 60];

/// An 11x11 start-of-game board: four fully stacked snakes at (1,1), (9,1),
/// (1,9) and (9,9), food next to each of them and in the centre.
fn start_of_game() -> CellBoard {
    let mut cells = vec![Cell::Empty; WIDTH * WIDTH];
    for (id, &h) in HEADS.iter().enumerate() {
        cells[h] = Cell::Snake(id as u8);
    }
    for &f in START_FOOD.iter() {
        cells[f] = Cell::Food;
    }
    CellBoard {
        width: WIDTH,
        cells,
        heads: HEADS.to_vec(),
        healths: vec![100; 4],
    }
}

fn remove_all_food(board: &mut CellBoard) {
    for i in 0..121 {
        if board.cells[i].is_food() {
            board.cells[i] = Cell::Empty;
        }
    }
}

fn neighbours(h: usize) -> Vec<usize> {
    let (x, y) = ((h % WIDTH) as i32, (h / WIDTH) as i32);
    let mut r = Vec::new();
    for (dx, dy) in [(0, 1), (0, -1), (-1, 0), (1, 0)] {
        let (ax, ay) = (x + dx, y + dy);
        if ax >= 0 && ax < WIDTH as i32 && ay >= 0 && ay < WIDTH as i32 {
            r.push(ay as usize * WIDTH + ax as usize);
        }
    }
    r
}

#[test]
fn test_spawn_food_minimum() {
    let mut board = start_of_game();

    // Remove all food manually, then spawn with min=1
    remove_all_food(&mut board);
    assert_eq!(board.food_positions().len(), 0);

    let mut rng = MinstdRand::new(42);
    let config = FoodSpawnConfig {
        minimum_food: 1,
        food_spawn_chance: 0,
    };
    board.spawn_food(&mut rng, &config);
    assert_eq!(board.food_positions().len(), 1);
}

#[test]
fn test_spawn_food_deterministic() {
    let mut board1 = start_of_game();
    let mut board2 = start_of_game();

    // Remove all food from both
    remove_all_food(&mut board1);
    remove_all_food(&mut board2);

    let config = FoodSpawnConfig {
        minimum_food: 3,
        food_spawn_chance: 0,
    };

    let mut rng1 = MinstdRand::new(12345);
    let mut rng2 = MinstdRand::new(12345);
    board1.spawn_food(&mut rng1, &config);
    board2.spawn_food(&mut rng2, &config);

    let food1 = board1.food_positions();
    let food2 = board2.food_positions();
    assert_eq!(food1, food2);
    assert_eq!(food1.len(), 3);
}

#[test]
fn test_spawn_food_chance_roll() {
    let config = FoodSpawnConfig {
        minimum_food: 0,
        food_spawn_chance: 100, // always spawn
    };

    let mut board = start_of_game();
    let initial_food = board.food_positions().len();

    let mut rng = MinstdRand::new(42);
    board.spawn_food(&mut rng, &config);

    let new_food = board.food_positions().len();
    // With 100% spawn chance and min=0, should get exactly 1 more food
    assert_eq!(new_food, initial_food + 1);
}

#[test]
fn test_no_food_on_heads_or_adjacent() {
    let mut board = start_of_game();

    // Remove all food
    remove_all_food(&mut board);

    let config = FoodSpawnConfig {
        minimum_food: 50, // Force lots of food to be placed
        food_spawn_chance: 0,
    };

    let mut rng = MinstdRand::new(42);
    board.spawn_food(&mut rng, &config);

    // Verify no food was placed on or adjacent to snake heads
    for snake_idx in 0..4 {
        if board.healths[snake_idx] == 0 {
            continue;
        }
        let head = board.heads[snake_idx];
        assert!(!board.cells[head].is_food());
        for adj in neighbours(head) {
            assert!(
                !board.cells[adj].is_food(),
                "Food was placed adjacent to a snake head at ({}, {})",
                adj % WIDTH,
                adj / WIDTH
            );
        }
    }
}

#[test]
fn test_spawn_food_exact_cells() {
    let mut board = start_of_game();
    remove_all_food(&mut board);
    let mut rng = MinstdRand::new(42);
    let config = FoodSpawnConfig { minimum_food: 1, food_spawn_chance: 0 };
    board.spawn_food(&mut rng, &config);
    assert_eq!(board.food_positions(), vec![78]);
    // One shuffle over the 101 free cells: 100 generator steps, no roll.
    assert_eq!(rng.state(), 1_218_406_072);

    let mut board = start_of_game();
    remove_all_food(&mut board);
    let mut rng = MinstdRand::new(12345);
    let config = FoodSpawnConfig { minimum_food: 3, food_spawn_chance: 0 };
    board.spawn_food(&mut rng, &config);
    assert_eq!(board.food_positions(), vec![34, 57, 102]);
    assert_eq!(rng.state(), 1_948_854_139);
}

#[test]
fn test_spawn_food_chance_roll_exact_cell() {
    let mut board = start_of_game();
    let mut rng = MinstdRand::new(42);
    let config = FoodSpawnConfig { minimum_food: 0, food_spawn_chance: 100 };
    board.spawn_food(&mut rng, &config);
    assert_eq!(board.food_positions(), vec![22, 32, 60, 66, 88, 98]);
    assert_eq!(rng.state(), 773_542_885);
}

#[test]
fn test_spawn_food_nothing_needed_leaves_board_and_rng() {
    // Minimum met and no chance: no roll, no shuffle.
    let mut board = start_of_game();
    let before = start_of_game();
    let mut rng = MinstdRand::new(42);
    let config = FoodSpawnConfig { minimum_food: 5, food_spawn_chance: 0 };
    board.spawn_food(&mut rng, &config);
    assert_eq!(board, before);
    assert_eq!(rng.state(), 42);
}

#[test]
fn test_spawn_food_failed_roll_consumes_one_step() {
    // intn(100) from seed 1 gives 48271 % 100 = 71, and 100 - 71 = 29 is not
    // below a chance of 29: nothing spawns, but the roll used one step.
    let mut board = start_of_game();
    let before = start_of_game();
    let mut rng = MinstdRand::new(1);
    let config = FoodSpawnConfig { minimum_food: 0, food_spawn_chance: 29 };
    board.spawn_food(&mut rng, &config);
    assert_eq!(board, before);
    assert_eq!(rng.state(), 48_271);
    // With a chance of 30 the same roll succeeds.
    let mut rng = MinstdRand::new(1);
    let config = FoodSpawnConfig { minimum_food: 0, food_spawn_chance: 30 };
    board.spawn_food(&mut rng, &config);
    assert_eq!(board.food_positions().len(), before.food_positions().len() + 1);
}

#[test]
fn test_spawn_food_fills_at_most_free_cells() {
    // 121 cells - 4 heads - 16 head neighbours = 101 free cells.
    let mut board = start_of_game();
    remove_all_food(&mut board);
    let mut rng = MinstdRand::new(7);
    let config = FoodSpawnConfig { minimum_food: 120, food_spawn_chance: 0 };
    board.spawn_food(&mut rng, &config);
    assert_eq!(board.food_positions().len(), 101);
    for (id, &h) in HEADS.iter().enumerate() {
        assert_eq!(board.cells[h], Cell::Snake(id as u8));
    }
}

#[test]
fn test_dead_snake_head_does_not_block_food() {
    let mut board = start_of_game();
    remove_all_food(&mut board);
    board.healths[3] = 0;
    let mut rng = MinstdRand::new(7);
    let config = FoodSpawnConfig { minimum_food: 120, food_spawn_chance: 0 };
    board.spawn_food(&mut rng, &config);
    // The four neighbours of the dead snake's head are free too.
    assert_eq!(board.food_positions().len(), 105);
    for adj in neighbours(108) {
        assert!(board.cells[adj].is_food());
    }
}

#[test]
fn test_food_spawn_config_default() {
    let config = FoodSpawnConfig::default();
    assert_eq!(config.minimum_food, 1);
    assert_eq!(config.food_spawn_chance, 15);
}

#[test]
fn test_cell_predicates_and_food_positions() {
    assert!(Cell::Empty.is_empty());
    assert!(!Cell::Food.is_empty());
    assert!(!Cell::Snake(0).is_empty());
    assert!(Cell::Food.is_food());
    assert!(!Cell::Snake(2).is_food());
    let board = start_of_game();
    assert_eq!(board.food_positions(), vec![22, 32, 60, 88, 98]);
}

#[test]
fn test_chance_one_never_spawns() {
    // A chance of c succeeds on c - 1 of the 100 rolls: a chance of 1 never.
    let config = FoodSpawnConfig { minimum_food: 0, food_spawn_chance: 1 };
    for seed in 0..300 {
        let mut board = start_of_game();
        let mut rng = MinstdRand::new(seed);
        board.spawn_food(&mut rng, &config);
        assert_eq!(board.food_positions().len(), START_FOOD.len());
    }
}

#[test]
fn test_every_free_cell_filled_when_short() {
    // Asking for more food than there are free cells fills every free cell
    // and nothing else.
    let mut board = start_of_game();
    let before = start_of_game();
    let mut rng = MinstdRand::new(3);
    let config = FoodSpawnConfig { minimum_food: 121, food_spawn_chance: 0 };
    board.spawn_food(&mut rng, &config);
    let mut blocked: Vec<usize> = HEADS.to_vec();
    for &h in HEADS.iter() {
        blocked.extend(neighbours(h));
    }
    for c in 0..WIDTH * WIDTH {
        if blocked.contains(&c) {
            assert_eq!(board.cells[c], before.cells[c]);
        } else {
            assert!(board.cells[c].is_food());
        }
    }
}
