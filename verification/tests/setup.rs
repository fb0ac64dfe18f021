use color_war::cell::{max_capacity, Cell, CAPACITY, STARTING_POWER};
use color_war::error::ConfigError;
use color_war::grid::{blank_grid, copy_grid, get_neighbors};
use color_war::order::{is_valid_order, random_order, seating};
use color_war::state::GameState;

#[test]
fn new_cell_is_empty() {
    assert_eq!(Cell::new(), Cell { owner: None, power: 0 });
}

#[test]
fn capacity_is_four_everywhere() {
    assert_eq!(CAPACITY, 4);
    assert_eq!(STARTING_POWER, 3);
    assert_eq!(max_capacity(0, 0), 4);
    assert_eq!(max_capacity(7, 3), 4);
    let game = GameState::with_order(8, 8, vec![0, 1, 2, 3]).unwrap();
    assert_eq!(game.max_capacity(0, 0), 4);
    assert_eq!(game.max_capacity(7, 7), 4);
}

#[test]
fn corner_has_two_neighbors() {
    assert_eq!(get_neighbors(8, 8, 0, 0), vec![(1, 0), (0, 1)]);
    assert_eq!(get_neighbors(8, 8, 7, 7), vec![(6, 7), (7, 6)]);
    assert_eq!(get_neighbors(8, 8, 0, 7), vec![(1, 7), (0, 6)]);
    assert_eq!(get_neighbors(8, 8, 7, 0), vec![(6, 0), (7, 1)]);
}

#[test]
fn edge_has_three_neighbors() {
    assert_eq!(get_neighbors(8, 8, 0, 3), vec![(1, 3), (0, 2), (0, 4)]);
    assert_eq!(get_neighbors(8, 8, 3, 0), vec![(2, 0), (4, 0), (3, 1)]);
    assert_eq!(get_neighbors(8, 8, 7, 3), vec![(6, 3), (7, 2), (7, 4)]);
    assert_eq!(get_neighbors(8, 8, 3, 7), vec![(2, 7), (4, 7), (3, 6)]);
}

#[test]
fn interior_has_four_neighbors_in_visiting_order() {
    assert_eq!(get_neighbors(8, 8, 3, 4), vec![(2, 4), (4, 4), (3, 3), (3, 5)]);
}

#[test]
fn single_cell_board_has_no_neighbors() {
    assert_eq!(get_neighbors(1, 1, 0, 0), vec![]);
    assert_eq!(get_neighbors(1, 3, 0, 1), vec![(0, 0), (0, 2)]);
    assert_eq!(get_neighbors(3, 1, 1, 0), vec![(0, 0), (2, 0)]);
}

#[test]
fn neighbors_of_the_game_are_those_of_its_board() {
    let game = GameState::with_order(2, 3, vec![0, 1]).unwrap();
    assert_eq!(game.get_neighbors(0, 0), vec![(1, 0), (0, 1)]);
    assert_eq!(game.get_neighbors(1, 1), vec![(0, 1), (1, 0), (1, 2)]);
    assert_eq!(game.get_neighbors(1, 2), vec![(0, 2), (1, 1)]);
}

#[test]
fn blank_grid_is_rows_of_empty_cells() {
    let grid = blank_grid(2, 3);
    assert_eq!(grid.len(), 2);
    for row in &grid {
        assert_eq!(row, &vec![Cell { owner: None, power: 0 }; 3]);
    }
    assert_eq!(blank_grid(0, 5).len(), 0);
}

#[test]
fn copy_grid_copies_every_cell() {
    let mut grid = blank_grid(2, 2);
    grid[0][1] = Cell { owner: Some(1), power: 2 };
    grid[1][0] = Cell { owner: Some(0), power: 3 };
    let copy = copy_grid(&grid);
    assert_eq!(copy, grid);
    grid[0][0] = Cell { owner: Some(2), power: 1 };
    assert_eq!(copy[0][0], Cell { owner: None, power: 0 });
}

#[test]
fn game_starts_empty_with_the_first_of_the_order_to_move() {
    let game = GameState::with_order(8, 8, vec![2, 0, 3, 1]).unwrap();
    assert_eq!(game.rows(), 8);
    assert_eq!(game.cols(), 8);
    assert_eq!(game.players(), 4);
    assert_eq!(game.current_player(), 2);
    assert_eq!(game.player_order(), &vec![2, 0, 3, 1]);
    assert!(!game.is_game_over());
    assert_eq!(game.winner(), None);
    for row in 0..8 {
        for col in 0..8 {
            assert_eq!(game.cell(row, col), Cell { owner: None, power: 0 });
        }
    }
    for player in 0..4 {
        assert!(!game.has_entered(player));
        assert!(game.is_alive(player));
    }
}

#[test]
fn board_without_rows_or_columns_is_refused() {
    assert_eq!(GameState::with_order(0, 8, vec![0, 1]).err(), Some(ConfigError::EmptyBoard));
    assert_eq!(GameState::with_order(8, 0, vec![0, 1]).err(), Some(ConfigError::EmptyBoard));
    assert_eq!(GameState::with_order(0, 0, vec![]).err(), Some(ConfigError::EmptyBoard));
    assert_eq!(GameState::new(0, 8, 4).err(), Some(ConfigError::EmptyBoard));
    assert_eq!(GameState::new(8, 0, 4).err(), Some(ConfigError::EmptyBoard));
}

#[test]
fn game_without_players_is_refused() {
    assert_eq!(GameState::with_order(8, 8, vec![]).err(), Some(ConfigError::NoPlayers));
    assert_eq!(GameState::new(8, 8, 0).err(), Some(ConfigError::NoPlayers));
}

#[test]
fn more_players_than_cells_is_refused() {
    assert_eq!(GameState::with_order(1, 1, vec![0, 1]).err(), Some(ConfigError::TooManyPlayers));
    assert_eq!(
        GameState::with_order(2, 2, vec![0, 1, 2, 3, 4]).err(),
        Some(ConfigError::TooManyPlayers)
    );
    assert_eq!(GameState::new(2, 2, 5).err(), Some(ConfigError::TooManyPlayers));
    assert!(GameState::with_order(2, 2, vec![3, 1, 0, 2]).is_ok());
    assert!(GameState::new(2, 2, 4).is_ok());
}

#[test]
fn huge_board_is_never_outnumbered() {
    assert_eq!(
        GameState::with_order(usize::MAX, usize::MAX, vec![0, 0]).err(),
        Some(ConfigError::InvalidOrder)
    );
}

#[test]
fn order_that_is_no_permutation_is_refused() {
    assert_eq!(GameState::with_order(8, 8, vec![0, 0]).err(), Some(ConfigError::InvalidOrder));
    assert_eq!(GameState::with_order(8, 8, vec![1, 2]).err(), Some(ConfigError::InvalidOrder));
    assert_eq!(GameState::with_order(8, 8, vec![0, 2, 3]).err(), Some(ConfigError::InvalidOrder));
    assert_eq!(GameState::with_order(8, 8, vec![7]).err(), Some(ConfigError::InvalidOrder));
}

#[test]
fn turn_orders_are_told_from_other_lists() {
    assert!(is_valid_order(&vec![]));
    assert!(is_valid_order(&vec![0]));
    assert!(is_valid_order(&vec![3, 1, 0, 2]));
    assert!(!is_valid_order(&vec![1]));
    assert!(!is_valid_order(&vec![0, 1, 1]));
    assert!(!is_valid_order(&vec![0, 1, 3]));
    assert!(!is_valid_order(&vec![usize::MAX, 0]));
}

#[test]
fn seating_counts_up() {
    assert_eq!(seating(0), vec![]);
    assert_eq!(seating(4), vec![0, 1, 2, 3]);
}

#[test]
fn random_order_is_a_permutation() {
    for players in 0..10 {
        let order = random_order(players);
        assert_eq!(order.len(), players);
        let mut sorted = order.clone();
        sorted.sort();
        assert_eq!(sorted, seating(players));
        assert!(is_valid_order(&order));
    }
}

#[test]
fn random_order_is_not_always_the_seating() {
    let mut moved = false;
    for _ in 0..200 {
        if random_order(8) != seating(8) {
            moved = true;
        }
    }
    assert!(moved);
}

#[test]
fn new_game_draws_its_order() {
    let mut first_players = vec![false; 4];
    for _ in 0..400 {
        let game = GameState::new(8, 8, 4).unwrap();
        assert_eq!(game.rows(), 8);
        assert_eq!(game.cols(), 8);
        assert_eq!(game.players(), 4);
        assert!(is_valid_order(game.player_order()));
        assert_eq!(game.current_player(), game.player_order()[0]);
        assert!(!game.is_game_over());
        assert_eq!(game.winner(), None);
        assert_eq!(game.cell(3, 3), Cell { owner: None, power: 0 });
        first_players[game.current_player()] = true;
    }
    assert_eq!(first_players, vec![true; 4]);
}

#[test]
fn configuration_errors_read_as_sentences() {
    assert_eq!(
        ConfigError::EmptyBoard.message(),
        "the board needs at least one row and one column"
    );
    assert_eq!(ConfigError::NoPlayers.message(), "the game needs at least one player");
    assert_eq!(
        ConfigError::TooManyPlayers.message(),
        "the board has fewer cells than there are players"
    );
    assert_eq!(
        ConfigError::InvalidOrder.message(),
        "the turn order must name every player exactly once"
    );
}
