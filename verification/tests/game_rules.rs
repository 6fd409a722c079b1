use three_row::ai::Difficulty;
use three_row::game::state::{find_line, GameState, Outcome};
use three_row::grid::{board_key, empty_board, win_patterns, Player};

const X: Option<Player> = Some(Player::X);
const O: Option<Player> = Some(Player::O);
const E: Option<Player> = None;

fn count(game: &GameState, p: Player) -> usize {
    let mut n = 0;
    for r in 0..3 {
        for c in 0..3 {
            if game.board[r][c] == Some(p) {
                n += 1;
            }
        }
    }
    n
}

fn with_board(board: [[Option<Player>; 3]; 3]) -> GameState {
    let mut game = GameState::new(false, None);
    game.board = board;
    game
}

#[test]
fn new_game_is_empty_with_x_to_move() {
    let game = GameState::new(true, Some(Difficulty::Hard));
    assert_eq!(game.board, [[E, E, E], [E, E, E], [E, E, E]]);
    assert_eq!(game.current_player, Player::X);
    assert!(game.moves_x.is_empty());
    assert!(game.moves_o.is_empty());
    assert_eq!(game.winner, None);
    assert_eq!(game.winning_line, None);
    assert!(game.is_ai_game);
    assert_eq!(game.difficulty, Some(Difficulty::Hard));
    assert_eq!(game.outcome(), Outcome::InProgress);
}

#[test]
fn placement_marks_cell_and_passes_turn() {
    let mut game = GameState::new(false, None);
    assert!(game.place_piece(1, 2));
    assert_eq!(game.board[1][2], X);
    assert_eq!(game.moves_x, vec![(1, 2)]);
    assert_eq!(game.current_player, Player::O);
    assert!(game.place_piece(0, 0));
    assert_eq!(game.board[0][0], O);
    assert_eq!(game.moves_o, vec![(0, 0)]);
    assert_eq!(game.current_player, Player::X);
}

#[test]
fn placement_on_taken_cell_changes_nothing() {
    let mut game = GameState::new(false, None);
    assert!(game.place_piece(1, 1));
    let board = game.board;
    assert!(!game.place_piece(1, 1));
    assert_eq!(game.board, board);
    assert_eq!(game.current_player, Player::O);
    assert_eq!(game.moves_x, vec![(1, 1)]);
    assert!(game.moves_o.is_empty());
}

#[test]
fn no_side_ever_holds_more_than_three() {
    let order = [
        (0, 0), (1, 1), (0, 1), (0, 2), (2, 0), (1, 0), (1, 2), (2, 1), (2, 2), (0, 0), (0, 1),
        (1, 1), (0, 2), (1, 0), (2, 0), (1, 2), (2, 1), (2, 2),
    ];
    let mut game = GameState::new(false, None);
    for round in 0..5 {
        for (i, &(r, c)) in order.iter().enumerate() {
            let _ = game.place_piece((r + round) % 3, (c + i) % 3);
            assert!(count(&game, Player::X) <= 3);
            assert!(count(&game, Player::O) <= 3);
            assert_eq!(count(&game, Player::X), game.moves_x.len());
            assert_eq!(count(&game, Player::O), game.moves_o.len());
        }
    }
}

#[test]
fn fourth_placement_evicts_the_oldest() {
    let mut game = GameState::new(false, None);
    // X: (0,0) (0,1) (1,2) then (2,0); O: (1,1) (2,2) (1,0)
    assert!(game.place_piece(0, 0));
    assert!(game.place_piece(1, 1));
    assert!(game.place_piece(0, 1));
    assert!(game.place_piece(2, 2));
    assert!(game.place_piece(1, 2));
    assert!(game.place_piece(1, 0));
    assert_eq!(game.winner, None);
    let before = game.board;
    assert!(game.place_piece(2, 0));
    assert_eq!(game.board[0][0], E);
    assert_eq!(game.board[2][0], X);
    assert_eq!(game.moves_x, vec![(0, 1), (1, 2), (2, 0)]);
    assert_eq!(game.moves_o, vec![(1, 1), (2, 2), (1, 0)]);
    for r in 0..3 {
        for c in 0..3 {
            if (r, c) != (0, 0) && (r, c) != (2, 0) {
                assert_eq!(game.board[r][c], before[r][c]);
            }
            assert_eq!(game.board[r][c] == O, before[r][c] == O);
        }
    }
    assert_eq!(game.board, [[E, X, E], [O, O, X], [X, E, O]]);
}

#[test]
fn winner_is_found_by_literal_scan() {
    let mut game = with_board([[X, X, X], [E, O, E], [E, E, O]]);
    game.check_winner();
    assert_eq!(game.winner, Some(Player::X));
    assert_eq!(game.winning_line, Some([(0, 0), (0, 1), (0, 2)]));
    assert_eq!(game.outcome(), Outcome::Won(Player::X));
}

#[test]
fn scan_without_line_keeps_the_verdict() {
    let mut game = with_board([[X, X, E], [E, O, E], [E, E, O]]);
    game.check_winner();
    assert_eq!(game.winner, None);
    assert_eq!(game.winning_line, None);
}

#[test]
fn every_line_is_recognised() {
    let lines = win_patterns();
    assert_eq!(
        lines,
        [
            [(0, 0), (0, 1), (0, 2)],
            [(1, 0), (1, 1), (1, 2)],
            [(2, 0), (2, 1), (2, 2)],
            [(0, 0), (1, 0), (2, 0)],
            [(0, 1), (1, 1), (2, 1)],
            [(0, 2), (1, 2), (2, 2)],
            [(0, 0), (1, 1), (2, 2)],
            [(0, 2), (1, 1), (2, 0)],
        ]
    );
    for (k, line) in lines.iter().enumerate() {
        let mut board = empty_board();
        for &(r, c) in line.iter() {
            board[r][c] = O;
        }
        assert_eq!(find_line(&board), Some(k));
        let mut game = with_board(board);
        game.check_winner();
        assert_eq!(game.winner, Some(Player::O));
        assert_eq!(game.winning_line, Some(*line));
    }
    assert_eq!(find_line(&empty_board()), None);
}

#[test]
fn first_line_in_scan_order_is_reported() {
    // the top row and the left column are both complete
    let board = [[X, X, X], [X, E, E], [X, E, E]];
    assert_eq!(find_line(&board), Some(0));
    // a column and a diagonal
    let board = [[O, E, E], [O, O, E], [O, E, O]];
    assert_eq!(find_line(&board), Some(3));
}

#[test]
fn win_by_placement_keeps_the_turn() {
    let mut game = GameState::new(false, None);
    assert!(game.place_piece(0, 0));
    assert!(game.place_piece(1, 0));
    assert!(game.place_piece(1, 1));
    assert!(game.place_piece(2, 0));
    assert!(game.place_piece(2, 2));
    assert_eq!(game.winner, Some(Player::X));
    assert_eq!(game.winning_line, Some([(0, 0), (1, 1), (2, 2)]));
    assert_eq!(game.current_player, Player::X);
    assert_eq!(game.outcome(), Outcome::Won(Player::X));
    let board = game.board;
    assert!(!game.place_piece(0, 1));
    assert_eq!(game.board, board);
    assert_eq!(game.moves_o, vec![(1, 0), (2, 0)]);
}

#[test]
fn line_completed_together_with_an_eviction_wins() {
    let mut game = GameState::new(false, None);
    // X: (2,2) (0,0) (0,1) then (0,2), which drops (2,2) and fills the top row
    assert!(game.place_piece(2, 2));
    assert!(game.place_piece(1, 0));
    assert!(game.place_piece(0, 0));
    assert!(game.place_piece(1, 1));
    assert!(game.place_piece(0, 1));
    assert!(game.place_piece(2, 0));
    assert!(game.place_piece(0, 2));
    assert_eq!(game.board[2][2], E);
    assert_eq!(game.winner, Some(Player::X));
    assert_eq!(game.winning_line, Some([(0, 0), (0, 1), (0, 2)]));
}

#[test]
fn full_grid_without_line_is_drawn() {
    let game = with_board([[X, O, X], [X, O, O], [O, X, X]]);
    assert_eq!(find_line(&game.board), None);
    assert!(game.available_moves().is_empty());
    assert_eq!(game.outcome(), Outcome::Drawn);
}

#[test]
fn available_moves_are_row_major() {
    let game = with_board([[X, E, O], [E, E, X], [O, E, E]]);
    assert_eq!(game.available_moves(), vec![(0, 1), (1, 0), (1, 1), (2, 1), (2, 2)]);
    let fresh = GameState::new(false, None);
    assert_eq!(
        fresh.available_moves(),
        vec![(0, 0), (0, 1), (0, 2), (1, 0), (1, 1), (1, 2), (2, 0), (2, 1), (2, 2)]
    );
}

#[test]
fn undo_clears_the_cell_only() {
    let mut game = GameState::new(false, None);
    assert!(game.place_piece(1, 1));
    assert!(game.place_piece(0, 2));
    game.undo_move(1, 1);
    assert_eq!(game.board, [[E, E, O], [E, E, E], [E, E, E]]);
    assert_eq!(game.moves_x, vec![(1, 1)]);
    assert_eq!(game.moves_o, vec![(0, 2)]);
    assert_eq!(game.current_player, Player::X);
    assert_eq!(game.winner, None);
}

#[test]
fn reset_keeps_the_configuration() {
    let mut game = GameState::new(true, Some(Difficulty::Easy));
    assert!(game.place_piece(0, 0));
    assert!(game.place_piece(1, 0));
    assert!(game.place_piece(0, 1));
    assert!(game.place_piece(1, 1));
    assert!(game.place_piece(0, 2));
    assert_eq!(game.winner, Some(Player::X));
    game.reset();
    assert_eq!(game.board, [[E, E, E], [E, E, E], [E, E, E]]);
    assert_eq!(game.current_player, Player::X);
    assert!(game.moves_x.is_empty());
    assert!(game.moves_o.is_empty());
    assert_eq!(game.winner, None);
    assert_eq!(game.winning_line, None);
    assert!(game.is_ai_game);
    assert_eq!(game.difficulty, Some(Difficulty::Easy));
}

#[test]
fn clone_is_independent() {
    let mut game = GameState::new(false, None);
    assert!(game.place_piece(0, 0));
    let mut copy = game.clone();
    assert_eq!(copy.board, game.board);
    assert_eq!(copy.moves_x, game.moves_x);
    assert_eq!(copy.current_player, game.current_player);
    assert!(copy.place_piece(2, 2));
    assert_eq!(game.board[2][2], E);
    assert!(game.moves_o.is_empty());
}

#[test]
fn position_keys_are_exact_and_distinct() {
    let empty = empty_board();
    assert_eq!(board_key(&empty, false), 0);
    assert_eq!(board_key(&empty, true), 1);
    let mut b = empty_board();
    b[0][0] = X;
    assert_eq!(board_key(&b, false), 2 * 6561);
    let mut c = empty_board();
    c[2][2] = O;
    assert_eq!(board_key(&c, true), 2 * 2 + 1);
    let mut d = empty_board();
    d[0][1] = O;
    d[2][2] = X;
    assert_eq!(board_key(&d, false), 2 * (2 * 2187 + 1));
    let full_o = [[O, O, O], [O, O, O], [O, O, O]];
    assert_eq!(board_key(&full_o, true), 2 * 19682 + 1);
    let keys = [
        board_key(&empty, false),
        board_key(&empty, true),
        board_key(&b, false),
        board_key(&b, true),
        board_key(&c, false),
        board_key(&c, true),
        board_key(&d, false),
        board_key(&d, true),
    ];
    for i in 0..keys.len() {
        for j in 0..keys.len() {
            assert_eq!(keys[i] == keys[j], i == j);
        }
    }
}

#[test]
fn players_and_symbols() {
    assert_eq!(Player::X.other(), Player::O);
    assert_eq!(Player::O.other(), Player::X);
    assert_eq!(Player::X.symbol(), 'X');
    assert_eq!(Player::O.symbol(), 'O');
}
