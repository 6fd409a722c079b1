use three_row::ai::Difficulty;
use three_row::game::state::{GameState, Outcome};
use three_row::grid::Player;
use three_row::session::{apply_player_move, maybe_apply_ai_move, new_game, play_turn, MoveError};

#[test]
fn replacing_an_own_piece_is_refused() {
    let mut game = GameState::new(false, None);
    assert_eq!(apply_player_move(&mut game, 1, 1), Ok(()));
    assert_eq!(apply_player_move(&mut game, 0, 0), Ok(()));
    assert_eq!(apply_player_move(&mut game, 2, 2), Ok(()));
    let board = game.board;
    assert_eq!(apply_player_move(&mut game, 1, 1), Err(MoveError::CellOccupied));
    assert_eq!(game.board, board);
    assert_eq!(game.current_player, Player::O);
    assert_eq!(game.moves_x, vec![(1, 1), (2, 2)]);
    assert_eq!(game.moves_o, vec![(0, 0)]);
}

#[test]
fn cell_off_the_grid_is_refused_first() {
    let mut game = GameState::new(false, None);
    assert_eq!(apply_player_move(&mut game, 3, 0), Err(MoveError::InvalidCoordinate));
    assert_eq!(apply_player_move(&mut game, 0, 3), Err(MoveError::InvalidCoordinate));
    assert_eq!(apply_player_move(&mut game, usize::MAX, 1), Err(MoveError::InvalidCoordinate));
    assert!(game.moves_x.is_empty());
    assert_eq!(game.current_player, Player::X);
    assert_eq!(game.available_moves().len(), 9);
}

#[test]
fn move_after_a_win_is_refused() {
    let mut game = GameState::new(false, None);
    for &(r, c) in [(0, 0), (1, 0), (0, 1), (1, 1), (0, 2)].iter() {
        assert_eq!(apply_player_move(&mut game, r, c), Ok(()));
    }
    assert_eq!(game.outcome(), Outcome::Won(Player::X));
    let board = game.board;
    assert_eq!(apply_player_move(&mut game, 2, 2), Err(MoveError::GameAlreadyDecided));
    assert_eq!(apply_player_move(&mut game, 0, 0), Err(MoveError::GameAlreadyDecided));
    assert_eq!(apply_player_move(&mut game, 5, 5), Err(MoveError::InvalidCoordinate));
    assert_eq!(game.board, board);
}

#[test]
fn refusals_are_worded() {
    assert_eq!(MoveError::InvalidCoordinate.message(), "Invalid move position");
    assert_eq!(MoveError::CellOccupied.message(), "Invalid move");
    assert_eq!(MoveError::GameAlreadyDecided.message(), "Invalid move");
}

#[test]
fn new_game_by_level_name() {
    let game = new_game("hard");
    assert!(game.is_ai_game);
    assert_eq!(game.difficulty, Some(Difficulty::Hard));
    let game = new_game("easy");
    assert!(game.is_ai_game);
    assert_eq!(game.difficulty, Some(Difficulty::Easy));
    let game = new_game("none");
    assert!(!game.is_ai_game);
    assert_eq!(game.difficulty, None);
    assert_eq!(game.current_player, Player::X);
    assert_eq!(game.available_moves().len(), 9);
}

#[test]
fn computer_stays_out_of_a_game_for_two() {
    let mut game = GameState::new(false, Some(Difficulty::Hard));
    assert_eq!(play_turn(&mut game, 1, 1), Ok(None));
    assert_eq!(game.current_player, Player::O);
    assert_eq!(maybe_apply_ai_move(&mut game), None);
    assert_eq!(game.moves_o.len(), 0);
}

#[test]
fn computer_replies_in_its_game() {
    for level in ["easy", "medium", "hard"] {
        let mut game = new_game(level);
        let reply = play_turn(&mut game, 1, 1).unwrap().unwrap();
        assert_ne!(reply, (1, 1));
        assert_eq!(game.board[1][1], Some(Player::X));
        assert_eq!(game.board[reply.0][reply.1], Some(Player::O));
        assert_eq!(game.moves_o, vec![reply]);
        assert_eq!(game.current_player, Player::X);
    }
}

#[test]
fn computer_blocks_in_the_opening() {
    for level in ["easy", "medium", "hard"] {
        // X holds (2,0) and takes (2,1): the computer must take (2,2)
        let mut game = new_game(level);
        assert!(game.place_piece(2, 0));
        assert!(game.place_piece(0, 1));
        assert_eq!(play_turn(&mut game, 2, 1), Ok(Some((2, 2))));
        assert_eq!(game.board[2][2], Some(Player::O));
    }
}

#[test]
fn computer_does_not_reply_to_a_refused_move_or_a_win() {
    let mut game = new_game("medium");
    assert!(game.place_piece(0, 0));
    assert!(game.place_piece(1, 0));
    assert!(game.place_piece(0, 1));
    assert!(game.place_piece(1, 1));
    let board = game.board;
    assert_eq!(play_turn(&mut game, 1, 1), Err(MoveError::CellOccupied));
    assert_eq!(game.board, board);
    assert_eq!(play_turn(&mut game, 0, 2), Ok(None));
    assert_eq!(game.winner, Some(Player::X));
    assert_eq!(game.moves_o, vec![(1, 0), (1, 1)]);
    assert_eq!(maybe_apply_ai_move(&mut game), None);
}

#[test]
fn a_long_game_against_the_computer_keeps_the_rules() {
    let mut game = new_game("medium");
    let mut turns = 0;
    while game.winner.is_none() && turns < 40 {
        let free = game.available_moves();
        let (r, c) = free[turns % free.len()];
        let before_o = game.moves_o.clone();
        let reply = play_turn(&mut game, r, c).unwrap();
        assert!(game.moves_x.len() <= 3);
        assert!(game.moves_o.len() <= 3);
        match reply {
            Some(m) => assert_eq!(game.moves_o.last(), Some(&m)),
            None => assert_eq!(game.moves_o, before_o),
        }
        turns += 1;
    }
}
