use color_war::cell::Cell;
use color_war::state::GameState;

#[test]
fn first_four_players_have_names() {
    let game = GameState::with_order(8, 8, vec![0, 1, 2, 3]).unwrap();
    assert_eq!(game.get_player_name(0), "Red");
    assert_eq!(game.get_player_name(1), "Green");
    assert_eq!(game.get_player_name(2), "Blue");
    assert_eq!(game.get_player_name(3), "Yellow");
    assert_eq!(game.get_player_name(4), "Unknown");
    assert_eq!(game.get_player_name(usize::MAX), "Unknown");
}

#[test]
fn first_four_players_have_colors() {
    let game = GameState::with_order(8, 8, vec![0, 1, 2, 3]).unwrap();
    assert_eq!(game.get_player_color(0), (255, 0, 0));
    assert_eq!(game.get_player_color(1), (0, 255, 0));
    assert_eq!(game.get_player_color(2), (0, 0, 255));
    assert_eq!(game.get_player_color(3), (255, 255, 0));
    assert_eq!(game.get_player_color(4), (255, 255, 255));
    assert_eq!(game.get_player_color(usize::MAX), (255, 255, 255));
}

#[test]
fn status_line_names_the_player_to_move() {
    let mut game = GameState::with_order(8, 8, vec![2, 0, 3, 1, 4]).unwrap();
    let lines = [
        (2, "Blue player's turn - Place your tile!"),
        (0, "Red player's turn - Place your tile!"),
        (3, "Yellow player's turn - Place your tile!"),
        (1, "Green player's turn - Place your tile!"),
        (4, "Unknown player's turn - Place your tile!"),
    ];
    for (step, (player, line)) in lines.into_iter().enumerate() {
        assert_eq!(game.status_player(), player);
        assert_eq!(game.status_message(), line);
        game.place_tile(step, step);
    }
}

#[test]
fn status_line_names_the_winner() {
    let mut game = GameState::with_order(1, 2, vec![1, 0]).unwrap();
    game.place_tile(0, 0);
    game.place_tile(0, 1);
    assert_eq!(game.status_message(), "Green player's turn - Place your tile!");
    game.place_tile(0, 0);
    assert!(game.is_game_over());
    assert_eq!(game.winner(), Some(1));
    assert_eq!(game.cell(0, 0), Cell { owner: Some(1), power: 1 });
    assert_eq!(game.cell(0, 1), Cell { owner: None, power: 0 });
    assert_eq!(game.status_player(), 1);
    assert_eq!(game.status_message(), "Green player wins!");
}

#[test]
fn status_line_of_a_draw_stays_with_the_player_to_move() {
    let mut game = GameState::with_order(1, 2, vec![1, 0]).unwrap();
    game.place_tile(0, 0);
    game.place_tile(0, 1);
    game.set_cell(0, 0, Cell { owner: None, power: 0 });
    game.set_cell(0, 1, Cell { owner: None, power: 0 });
    game.check_elimination();
    assert!(game.is_game_over());
    assert_eq!(game.winner(), None);
    assert_eq!(game.status_player(), 1);
    assert_eq!(game.status_message(), "Green player's turn - Place your tile!");
}
