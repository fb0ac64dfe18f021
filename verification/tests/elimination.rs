use color_war::cell::Cell;
use color_war::game::Placement;
use color_war::state::GameState;

fn held(owner: usize, power: u8) -> Cell {
    Cell { owner: Some(owner), power }
}

fn free(power: u8) -> Cell {
    Cell { owner: None, power }
}

fn board(game: &GameState) -> Vec<Vec<Cell>> {
    let mut rows = Vec::new();
    for row in 0..game.rows() {
        let mut cells = Vec::new();
        for col in 0..game.cols() {
            cells.push(game.cell(row, col));
        }
        rows.push(cells);
    }
    rows
}

fn alive(game: &GameState) -> Vec<bool> {
    (0..game.players()).map(|player| game.is_alive(player)).collect()
}

#[test]
fn nobody_is_eliminated_while_somebody_has_yet_to_enter() {
    let mut game = GameState::with_order(3, 3, vec![0, 1, 2]).unwrap();
    game.place_tile(1, 1);
    game.set_cell(0, 0, held(0, 4));
    assert_eq!(game.current_player(), 1);
    assert_eq!(game.try_place_tile(0, 1, 100), Placement::Played);
    assert_eq!(
        board(&game),
        vec![
            vec![held(0, 1), held(0, 1), held(0, 1)],
            vec![held(0, 2), free(0), held(0, 1)],
            vec![free(0), held(0, 1), free(0)],
        ]
    );
    assert!(game.has_entered(1));
    assert!(!game.has_entered(2));
    assert!(!game.is_game_over());
    assert_eq!(game.winner(), None);
    assert_eq!(alive(&game), vec![true, true, true]);
    assert_eq!(game.current_player(), 2);
}

#[test]
fn check_elimination_waits_for_everybody_to_enter() {
    let mut game = GameState::with_order(2, 2, vec![1, 0]).unwrap();
    game.place_tile(0, 0);
    game.check_elimination();
    assert!(!game.is_game_over());
    assert_eq!(game.winner(), None);
    assert_eq!(alive(&game), vec![true, true]);
    assert_eq!(game.current_player(), 0);
    assert_eq!(game.cell(0, 0), held(1, 3));
}

#[test]
fn everybody_is_in_right_after_entering() {
    let mut game = GameState::with_order(2, 2, vec![1, 0]).unwrap();
    game.place_tile(0, 0);
    game.place_tile(1, 1);
    assert!(!game.is_game_over());
    assert_eq!(alive(&game), vec![true, true]);
    assert_eq!(game.current_player(), 1);
}

#[test]
fn eliminated_player_is_passed_over() {
    let mut game = GameState::with_order(3, 3, vec![2, 0, 1]).unwrap();
    for (row, col) in [(0, 1), (0, 2), (1, 0)] {
        game.place_tile(row, col);
    }
    assert_eq!(game.current_player(), 2);
    assert_eq!(game.try_place_tile(0, 1, 100), Placement::Played);
    assert_eq!(
        board(&game),
        vec![
            vec![held(2, 1), held(2, 1), free(0)],
            vec![held(1, 3), held(2, 1), held(2, 1)],
            vec![free(0), free(0), free(0)],
        ]
    );
    assert_eq!(alive(&game), vec![false, true, true]);
    assert!(!game.is_game_over());
    assert_eq!(game.current_player(), 1);
    let turns = [(1, 0, 2), (1, 2, 1), (1, 1, 2), (0, 1, 1)];
    for (row, col, next) in turns {
        assert_eq!(game.try_place_tile(row, col, 100), Placement::Played);
        assert!(!game.is_alive(0));
        assert!(!game.is_game_over());
        assert_eq!(game.current_player(), next);
    }
}

#[test]
fn last_player_holding_cells_wins() {
    let mut game = GameState::with_order(3, 3, vec![2, 0, 1]).unwrap();
    let moves = [(0, 1), (0, 2), (1, 0), (0, 1), (1, 0), (1, 2), (1, 1), (0, 1)];
    for (row, col) in moves {
        assert_eq!(game.try_place_tile(row, col, 100), Placement::Played);
        assert!(!game.is_game_over());
        assert_eq!(game.winner(), None);
    }
    assert_eq!(game.current_player(), 1);
    assert_eq!(game.try_place_tile(1, 1, 100), Placement::Played);
    assert_eq!(
        board(&game),
        vec![
            vec![held(1, 2), held(1, 3), free(0)],
            vec![held(1, 1), free(0), held(1, 3)],
            vec![held(1, 1), held(1, 1), free(0)],
        ]
    );
    assert!(game.is_game_over());
    assert_eq!(game.winner(), Some(1));
    assert_eq!(alive(&game), vec![false, true, false]);
    assert_eq!(game.current_player(), 1);
}

#[test]
fn nothing_counts_once_the_game_is_over() {
    let mut game = GameState::with_order(2, 2, vec![0, 1]).unwrap();
    game.place_tile(0, 0);
    game.place_tile(1, 1);
    game.set_cell(0, 1, held(1, 3));
    game.set_cell(1, 0, held(1, 3));
    assert_eq!(game.try_place_tile(0, 0, 5), Placement::Played);
    assert!(game.is_game_over());
    assert_eq!(game.winner(), Some(0));
    let before = board(&game);
    assert_eq!(before, vec![vec![held(0, 2), free(2)], vec![free(2), free(0)]]);
    for row in 0..2 {
        for col in 0..2 {
            assert!(!game.is_legal(row, col));
            game.place_tile(row, col);
            assert_eq!(game.try_place_tile(row, col, 100), Placement::Ignored);
            assert_eq!(board(&game), before);
            assert!(game.is_game_over());
            assert_eq!(game.winner(), Some(0));
            assert_eq!(game.current_player(), 0);
        }
    }
}

#[test]
fn sole_player_wins_on_entering() {
    let mut game = GameState::with_order(1, 1, vec![0]).unwrap();
    game.place_tile(0, 0);
    assert!(game.is_game_over());
    assert_eq!(game.winner(), Some(0));
    assert_eq!(game.cell(0, 0), held(0, 3));
}

#[test]
fn game_without_anybody_left_ends_without_a_winner() {
    let mut game = GameState::with_order(2, 2, vec![0, 1]).unwrap();
    game.place_tile(0, 0);
    game.place_tile(1, 1);
    game.set_cell(0, 0, free(0));
    game.set_cell(1, 1, free(0));
    game.check_elimination();
    assert!(game.is_game_over());
    assert_eq!(game.winner(), None);
    assert_eq!(alive(&game), vec![false, false]);
    assert_eq!(game.try_place_tile(0, 0, 100), Placement::Ignored);
}

#[test]
fn check_elimination_names_the_one_player_left() {
    let mut game = GameState::with_order(2, 3, vec![2, 0, 1]).unwrap();
    game.place_tile(0, 0);
    game.place_tile(0, 1);
    game.place_tile(0, 2);
    game.set_cell(0, 0, held(1, 1));
    game.set_cell(0, 1, free(0));
    game.check_elimination();
    assert!(game.is_game_over());
    assert_eq!(game.winner(), Some(1));
    assert_eq!(alive(&game), vec![false, true, false]);
}

#[test]
fn check_elimination_leaves_a_game_with_two_players_on() {
    let mut game = GameState::with_order(2, 3, vec![2, 0, 1]).unwrap();
    game.place_tile(0, 0);
    game.place_tile(0, 1);
    game.place_tile(0, 2);
    game.set_cell(0, 0, held(1, 1));
    game.check_elimination();
    assert!(!game.is_game_over());
    assert_eq!(game.winner(), None);
    assert_eq!(alive(&game), vec![true, true, false]);
    assert_eq!(game.current_player(), 2);
}

#[test]
fn turn_goes_round_the_order() {
    let mut game = GameState::with_order(4, 4, vec![3, 1, 0, 2]).unwrap();
    let mut seen = Vec::new();
    for step in 0..4 {
        seen.push(game.current_player());
        game.place_tile(step, step);
    }
    assert_eq!(seen, vec![3, 1, 0, 2]);
    assert_eq!(game.current_player(), 3);
    game.set_cell(0, 0, held(3, 1));
    game.place_tile(0, 0);
    assert_eq!(game.current_player(), 1);
}
