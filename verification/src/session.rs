//! What a caller that holds a game may ask of it: a new game, a player's
//! move with the computer's reply, and the reasons for which a move is
//! refused.

use crate::ai::{level_of, AiPlayer, Difficulty};
use crate::game::state::{GameState, GameView};
use crate::grid::{empties, Cell};
use vstd::prelude::*;

verus! {

/// Why a move is refused.
#[derive(Clone, Copy, Debug, PartialEq, Eq, Structural)]
pub enum MoveError {
    /// The cell is not on the grid.
    InvalidCoordinate,
    /// A piece stands on the cell.
    CellOccupied,
    /// Somebody has won.
    GameAlreadyDecided,
}

impl MoveError {
    /// The words in which the refusal is reported.
    pub fn message(self) -> (r: &'static str)
        ensures
            r@ == (match self {
                MoveError::InvalidCoordinate => "Invalid move position"@,
                _ => "Invalid move"@,
            }),
    {
        match self {
            MoveError::InvalidCoordinate => "Invalid move position",
            _ => "Invalid move",
        }
    }
}

/// The reason for which a placement on (x, y) is refused, if it is: first a
/// cell off the grid, then a game that is won, then a cell that is taken.
pub open spec fn refusal(g: GameView, x: usize, y: usize) -> Option<MoveError> {
    if x >= 3 || y >= 3 {
        Some(MoveError::InvalidCoordinate)
    } else if g.winner is Some {
        Some(MoveError::GameAlreadyDecided)
    } else if g.board[x as int][y as int] is Some {
        Some(MoveError::CellOccupied)
    } else {
        None
    }
}

/// The computer is to reply: it plays in this game and nobody has won.
pub open spec fn ai_turn(g: GameView) -> bool {
    g.is_ai_game && g.winner is None
}

/// The tier at which the computer plays a game: the one that the game
/// names, or `Medium` where it names none.
pub open spec fn tier_of(g: GameView) -> Difficulty {
    match g.difficulty {
        Some(d) => d,
        None => Difficulty::Medium,
    }
}

/// A game before its first move for the tier that `level` names; the
/// computer plays in it exactly where `level` names a tier.
pub fn new_game(level: &str) -> (g: GameState)
    ensures
        g@.is_fresh(level_of(level@) is Some, level_of(level@)),
        g@.wf(),
{
    let difficulty = Difficulty::from_level(level);
    GameState::new(difficulty.is_some(), difficulty)
}

/// Places a piece for the side to move on (x, y), or says why it cannot. A
/// refused move leaves the game as it was.
pub fn apply_player_move(game: &mut GameState, x: usize, y: usize) -> (r: Result<(), MoveError>)
    requires
        old(game)@.playable(),
    ensures
        match r {
            Ok(_) => refusal(old(game)@, x, y) is None && final(game)@ == old(game)@.place(
                x as int,
                y as int,
            ),
            Err(e) => refusal(old(game)@, x, y) == Some(e) && final(game)@ == old(game)@,
        },
        final(game)@.playable(),
        old(game)@.wf() ==> final(game)@.wf(),
{
    if x >= 3 || y >= 3 {
        return Err(MoveError::InvalidCoordinate);
    }
    if game.winner.is_some() {
        return Err(MoveError::GameAlreadyDecided);
    }
    if game.place_piece(x, y) {
        Ok(())
    } else {
        Err(MoveError::CellOccupied)
    }
}

/// Lets the computer reply where it is to: it plays at the game's tier and
/// its move is placed. Returns the cell it took. Nothing is returned, and
/// the game stays as it was, where the computer is not to reply or no cell
/// is empty.
pub fn maybe_apply_ai_move(game: &mut GameState) -> (r: Option<Cell>)
    requires
        old(game)@.playable(),
    ensures
        r is Some <==> ai_turn(old(game)@) && empties(old(game)@.board).len() > 0,
        match r {
            Some(m) => {
                &&& AiPlayer::of_tier(tier_of(old(game)@)).allows(old(game)@, m)
                &&& old(game)@.accepts(m.0 as int, m.1 as int)
                &&& final(game)@ == old(game)@.place(m.0 as int, m.1 as int)
            },
            None => final(game)@ == old(game)@,
        },
        final(game)@.playable(),
        old(game)@.wf() ==> final(game)@.wf(),
{
    if !game.is_ai_game || game.winner.is_some() {
        return None;
    }
    let difficulty = match game.difficulty {
        Some(d) => d,
        None => Difficulty::Medium,
    };
    let ai_player = AiPlayer::new(difficulty);
    match ai_player.make_move(game) {
        Some((ai_x, ai_y)) => {
            game.place_piece(ai_x, ai_y);
            Some((ai_x, ai_y))
        },
        None => None,
    }
}

/// One turn of a game: the player's move on (x, y) and, where the computer
/// is to reply, its move. A refused move leaves the game as it was;
/// otherwise the cell that the computer took, if it took one, is returned.
pub fn play_turn(game: &mut GameState, x: usize, y: usize) -> (r: Result<Option<Cell>, MoveError>)
    requires
        old(game)@.playable(),
    ensures
        match r {
            Err(e) => refusal(old(game)@, x, y) == Some(e) && final(game)@ == old(game)@,
            Ok(reply) => {
                let moved = old(game)@.place(x as int, y as int);
                &&& refusal(old(game)@, x, y) is None
                &&& reply is Some <==> ai_turn(moved) && empties(moved.board).len() > 0
                &&& match reply {
                    Some(m) => {
                        &&& AiPlayer::of_tier(tier_of(moved)).allows(moved, m)
                        &&& moved.accepts(m.0 as int, m.1 as int)
                        &&& final(game)@ == moved.place(m.0 as int, m.1 as int)
                    },
                    None => final(game)@ == moved,
                }
            },
        },
        final(game)@.playable(),
        old(game)@.wf() ==> final(game)@.wf(),
{
    match apply_player_move(game, x, y) {
        Err(e) => Err(e),
        Ok(_) => Ok(maybe_apply_ai_move(game)),
    }
}

} // verus!
