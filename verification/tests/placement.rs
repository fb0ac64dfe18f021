use color_war::cascade::Effect;
use color_war::cell::Cell;
use color_war::game::Placement;
use color_war::state::GameState;

fn board(game: &GameState) -> Vec<Vec<Cell>> {
    let mut rows = Vec::new();
    for row in 0..game.rows() {
        let mut cells = Vec::new();
        for col in 0..game.cols() {
            cells.push(game.cell(row, col));
        }
        rows.push(cells);
    }
    rows
}

fn held(owner: usize, power: u8) -> Cell {
    Cell { owner: Some(owner), power }
}

fn free(power: u8) -> Cell {
    Cell { owner: None, power }
}

#[test]
fn first_tile_starts_with_three() {
    let mut game = GameState::with_order(3, 3, vec![0, 1]).unwrap();
    assert_eq!(game.current_player(), 0);
    assert!(game.is_legal(1, 2));
    game.place_tile(1, 2);
    assert_eq!(game.cell(1, 2), held(0, 3));
    assert!(game.has_entered(0));
    assert!(!game.has_entered(1));
    assert_eq!(game.current_player(), 1);
    assert_eq!(game.take_effects(), vec![]);
}

#[test]
fn first_tile_on_an_owned_cell_is_ignored() {
    let mut game = GameState::with_order(3, 3, vec![0, 1]).unwrap();
    game.place_tile(1, 2);
    let before = board(&game);
    assert!(!game.is_legal(1, 2));
    game.place_tile(1, 2);
    assert_eq!(board(&game), before);
    assert_eq!(game.current_player(), 1);
    assert!(!game.has_entered(1));
    assert_eq!(game.try_place_tile(1, 2, 100), Placement::Ignored);
    assert_eq!(board(&game), before);
    assert_eq!(game.current_player(), 1);
}

#[test]
fn first_tile_may_take_a_free_cell_that_holds_charge() {
    let mut game = GameState::with_order(3, 3, vec![0, 1]).unwrap();
    game.set_cell(2, 0, free(2));
    assert!(game.is_legal(2, 0));
    game.place_tile(2, 0);
    assert_eq!(game.cell(2, 0), held(0, 3));
}

#[test]
fn later_tile_adds_one_to_an_own_cell() {
    let mut game = GameState::with_order(3, 3, vec![0, 1]).unwrap();
    game.place_tile(1, 1);
    game.place_tile(0, 0);
    game.set_cell(1, 1, held(0, 1));
    assert_eq!(game.current_player(), 0);
    game.place_tile(1, 1);
    assert_eq!(game.cell(1, 1), held(0, 2));
    assert_eq!(game.current_player(), 1);
    assert_eq!(game.take_effects(), vec![]);
}

#[test]
fn later_tile_on_a_foreign_or_free_cell_is_ignored() {
    let mut game = GameState::with_order(3, 3, vec![0, 1]).unwrap();
    game.place_tile(1, 1);
    game.place_tile(0, 0);
    let before = board(&game);
    assert_eq!(game.current_player(), 0);
    assert!(!game.is_legal(0, 0));
    game.place_tile(0, 0);
    assert_eq!(board(&game), before);
    assert_eq!(game.current_player(), 0);
    assert!(!game.is_legal(2, 2));
    game.place_tile(2, 2);
    assert_eq!(board(&game), before);
    assert_eq!(game.current_player(), 0);
    assert_eq!(game.try_place_tile(0, 0, 100), Placement::Ignored);
    assert_eq!(game.try_place_tile(2, 2, 100), Placement::Ignored);
    assert_eq!(board(&game), before);
    assert_eq!(game.current_player(), 0);
    assert!(!game.is_game_over());
}

#[test]
fn placement_off_the_board_is_reported() {
    let mut game = GameState::with_order(3, 4, vec![0, 1]).unwrap();
    let before = board(&game);
    assert_eq!(game.try_place_tile(3, 0, 100), Placement::OffBoard);
    assert_eq!(game.try_place_tile(0, 4, 100), Placement::OffBoard);
    assert_eq!(game.try_place_tile(usize::MAX, usize::MAX, 100), Placement::OffBoard);
    assert!(!game.is_legal(3, 0));
    assert!(!game.is_legal(0, 4));
    assert_eq!(board(&game), before);
    assert_eq!(game.current_player(), 0);
    assert_eq!(game.try_place_tile(2, 3, 100), Placement::Played);
    assert_eq!(game.cell(2, 3), held(0, 3));
}

#[test]
fn corner_explodes_into_its_two_neighbors() {
    let mut game = GameState::with_order(3, 3, vec![0, 1]).unwrap();
    game.place_tile(0, 0);
    game.place_tile(2, 2);
    assert_eq!(game.cell(0, 0), held(0, 3));
    game.place_tile(0, 0);
    assert_eq!(
        board(&game),
        vec![
            vec![free(0), held(0, 1), free(0)],
            vec![held(0, 1), free(0), free(0)],
            vec![free(0), free(0), held(1, 3)],
        ]
    );
    assert_eq!(game.current_player(), 1);
    assert!(!game.is_game_over());
    assert_eq!(
        game.take_effects(),
        vec![
            Effect::Explosion { row: 0, col: 0, wave: 0 },
            Effect::Capture { row: 1, col: 0, from_row: 0, from_col: 0, wave: 0 },
            Effect::Capture { row: 0, col: 1, from_row: 0, from_col: 0, wave: 0 },
        ]
    );
}

#[test]
fn same_position_and_move_give_the_same_result() {
    let mut first = GameState::with_order(3, 3, vec![0, 1]).unwrap();
    let mut second = GameState::with_order(3, 3, vec![0, 1]).unwrap();
    for game in [&mut first, &mut second] {
        game.place_tile(0, 0);
        game.place_tile(2, 2);
        game.set_cell(0, 1, held(1, 3));
        game.set_cell(1, 0, held(1, 3));
        game.set_cell(1, 1, held(1, 3));
        game.set_cell(2, 2, held(1, 1));
        assert_eq!(game.try_place_tile(0, 0, 100), Placement::Played);
    }
    assert_eq!(board(&first), board(&second));
    assert_eq!(first.current_player(), second.current_player());
    assert_eq!(first.take_effects(), second.take_effects());
}

#[test]
fn every_cell_is_below_capacity_after_a_placement() {
    let mut game = GameState::with_order(3, 3, vec![2, 0, 1]).unwrap();
    let moves = [(0, 1), (0, 2), (1, 0), (0, 1), (1, 0), (1, 2), (1, 1), (0, 1), (1, 1)];
    for (row, col) in moves {
        assert_eq!(game.try_place_tile(row, col, 1000), Placement::Played);
        for cells in board(&game) {
            for cell in cells {
                assert!(cell.power < 4);
                if cell.owner.is_some() {
                    assert!(cell.power > 0);
                }
            }
        }
    }
}

#[test]
fn taking_the_effects_empties_the_record() {
    let mut game = GameState::with_order(3, 3, vec![0, 1]).unwrap();
    game.place_tile(0, 0);
    game.place_tile(2, 2);
    game.place_tile(0, 0);
    assert_eq!(game.take_effects().len(), 3);
    assert_eq!(game.take_effects(), vec![]);
    assert_eq!(game.cell(0, 1), held(0, 1));
    assert_eq!(game.current_player(), 1);
}

#[test]
fn effects_pile_up_until_taken() {
    let mut game = GameState::with_order(3, 3, vec![0, 1]).unwrap();
    game.place_tile(0, 0);
    game.place_tile(2, 2);
    game.place_tile(0, 0);
    game.place_tile(2, 2);
    assert_eq!(
        game.take_effects(),
        vec![
            Effect::Explosion { row: 0, col: 0, wave: 0 },
            Effect::Capture { row: 1, col: 0, from_row: 0, from_col: 0, wave: 0 },
            Effect::Capture { row: 0, col: 1, from_row: 0, from_col: 0, wave: 0 },
            Effect::Explosion { row: 2, col: 2, wave: 0 },
            Effect::Capture { row: 1, col: 2, from_row: 2, from_col: 2, wave: 0 },
            Effect::Capture { row: 2, col: 1, from_row: 2, from_col: 2, wave: 0 },
        ]
    );
}

#[test]
fn set_cell_replaces_one_cell() {
    let mut game = GameState::with_order(2, 2, vec![0, 1]).unwrap();
    game.set_cell(1, 0, held(1, 2));
    assert_eq!(board(&game), vec![vec![free(0), free(0)], vec![held(1, 2), free(0)]]);
    assert_eq!(game.current_player(), 0);
    assert!(!game.has_entered(1));
}
