//! How a grid is scored by its lines, and the opening rule that blocks a
//! threatened line.

use crate::ai::SearchConfig;
use crate::game::state::GameView;
use crate::grid::{line_coords, occupant_at, opponent, Board, Cell, Player};
use vstd::prelude::*;

verus! {

/// 1 where `p` stands on the `j`-th cell of line `k`, else 0.
pub open spec fn holds(b: Board, k: int, j: int, p: Player) -> int {
    if occupant_at(b, k, j) == Some(p) {
        1
    } else {
        0
    }
}

/// How many pieces of `p` stand on line `k`.
pub open spec fn tally(b: Board, k: int, p: Player) -> int {
    holds(b, k, 0, p) + holds(b, k, 1, p) + holds(b, k, 2, p)
}

/// What line `k` adds to the score of `me`: the line weight for a full
/// line, the threat weight for two pieces on a line that the other side has
/// not touched, the same with a minus sign for the other side, else 0.
pub open spec fn line_term(b: Board, k: int, me: Player, cfg: SearchConfig) -> int {
    let mine = tally(b, k, me);
    let theirs = tally(b, k, opponent(me));
    if mine == 3 {
        cfg.line_score as int
    } else if mine == 2 && theirs == 0 {
        cfg.threat_score as int
    } else if theirs == 3 {
        -(cfg.line_score as int)
    } else if theirs == 2 && mine == 0 {
        -(cfg.threat_score as int)
    } else {
        0
    }
}

/// The sum of the terms of the first `n` lines.
pub open spec fn evaluation_below(b: Board, n: int, me: Player, cfg: SearchConfig) -> int
    decreases n,
{
    if n <= 0 {
        0
    } else {
        evaluation_below(b, n - 1, me, cfg) + line_term(b, n - 1, me, cfg)
    }
}

/// The score of a grid for `me`: the sum of the terms of all eight lines.
pub open spec fn evaluation(b: Board, me: Player, cfg: SearchConfig) -> int {
    evaluation_below(b, 8, me, cfg)
}

/// `m` is a cell of the grid with nothing on it.
pub open spec fn free_at(b: Board, m: Cell) -> bool {
    m.0 < 3 && m.1 < 3 && b[m.0 as int][m.1 as int] is None
}

/// The other side threatens on line `k`: it holds two of its cells and `me`
/// holds none, so the third is empty.
pub open spec fn threat_on(b: Board, k: int, me: Player) -> bool {
    tally(b, k, opponent(me)) == 2 && tally(b, k, me) == 0
}

/// The last empty cell of line `k`, if it has one.
pub open spec fn gap(b: Board, k: int) -> Option<Cell> {
    if occupant_at(b, k, 2) is None {
        Some(line_coords(k)[2])
    } else if occupant_at(b, k, 1) is None {
        Some(line_coords(k)[1])
    } else if occupant_at(b, k, 0) is None {
        Some(line_coords(k)[0])
    } else {
        None
    }
}

/// The first line at or after `k` on which the other side threatens.
pub open spec fn first_threat_from(b: Board, k: int, me: Player) -> Option<int>
    decreases 8 - k,
{
    if k < 0 || k >= 8 {
        None
    } else if threat_on(b, k, me) {
        Some(k)
    } else {
        first_threat_from(b, k + 1, me)
    }
}

/// The cell that blocks the first threatened line, or nothing where no line
/// is threatened.
pub open spec fn block_move(b: Board, me: Player) -> Option<Cell> {
    match first_threat_from(b, 0, me) {
        Some(k) => gap(b, k),
        None => None,
    }
}

/// What `block_move` gives: the one empty cell of the first line on which
/// the other side holds two cells and `me` none; and nothing only where no
/// line is such.
pub proof fn lemma_block_move(b: Board, me: Player)
    ensures
        match block_move(b, me) {
            Some(m) => exists|k: int, j: int|
                0 <= k < 8 && 0 <= j < 3 && threat_on(b, k, me) && m == #[trigger] line_coords(
                    k,
                )[j] && occupant_at(b, k, j) is None && (forall|n: int|
                    0 <= n < k ==> !threat_on(b, n, me)) && (forall|i: int|
                    0 <= i < 3 && i != j ==> occupant_at(b, k, i) == Some(opponent(me))),
            None => forall|k: int| 0 <= k < 8 ==> !threat_on(b, k, me),
        },
        block_move(b, me) is Some ==> free_at(b, block_move(b, me)->0),
{
    lemma_first_threat_from(b, 0, me);
    match first_threat_from(b, 0, me) {
        Some(k) => {
            let j = if occupant_at(b, k, 2) is None {
                2int
            } else if occupant_at(b, k, 1) is None {
                1int
            } else {
                0int
            };
            assert(threat_on(b, k, me));
            assert(holds(b, k, 0, me) == 0 && holds(b, k, 1, me) == 0 && holds(b, k, 2, me) == 0);
            assert forall|i: int| 0 <= i < 3 implies occupant_at(b, k, i) is None
                || holds(b, k, i, opponent(me)) == 1 by {
                match occupant_at(b, k, i) {
                    Some(Player::X) => {
                        assert(me == Player::O);
                    },
                    Some(Player::O) => {
                        assert(me == Player::X);
                    },
                    None => {},
                }
            }
            assert(occupant_at(b, k, j) is None);
            assert(gap(b, k) == Some(line_coords(k)[j]));
        },
        None => {},
    }
}

proof fn lemma_first_threat_from(b: Board, k: int, me: Player)
    requires
        0 <= k <= 8,
    ensures
        match first_threat_from(b, k, me) {
            Some(n) => k <= n < 8 && threat_on(b, n, me) && forall|j: int|
                k <= j < n ==> !threat_on(b, j, me),
            None => forall|j: int| k <= j < 8 ==> !threat_on(b, j, me),
        },
    decreases 8 - k,
{
    if k < 8 && !threat_on(b, k, me) {
        lemma_first_threat_from(b, k + 1, me);
    }
}

/// The larger of the two weights that the count of lines uses.
pub open spec fn line_weight(cfg: SearchConfig) -> int {
    if cfg.line_score >= cfg.threat_score {
        cfg.line_score as int
    } else {
        cfg.threat_score as int
    }
}

/// The count of the first `n` lines stays within `n` times the larger line
/// weight.
pub proof fn lemma_evaluation_range(b: Board, n: int, me: Player, cfg: SearchConfig)
    requires
        cfg.valid(),
        0 <= n <= 8,
    ensures
        -n * line_weight(cfg) <= evaluation_below(b, n, me, cfg) <= n * line_weight(cfg),
    decreases n,
{
    if n > 0 {
        lemma_evaluation_range(b, n - 1, me, cfg);
        let w = line_weight(cfg);
        assert((n - 1) * w + w == n * w) by (nonlinear_arith);
        assert(-(n - 1) * w - w == -n * w) by (nonlinear_arith);
    }
}

/// How many pieces of `p` stand on line `k`, and the last empty cell of the
/// line.
pub(crate) fn survey(board: &Board, line: &[Cell; 3], Ghost(k): Ghost<int>, p: Player) -> (r: (
    u8,
    u8,
    Option<Cell>,
))
    requires
        0 <= k < 8,
        line@ == line_coords(k),
    ensures
        r.0 == tally(*board, k, p),
        r.1 == tally(*board, k, opponent(p)),
        r.2 == gap(*board, k),
{
    let mut mine: u8 = 0;
    let mut theirs: u8 = 0;
    let mut empty: Option<Cell> = None;
    let a = line[0];
    let b = line[1];
    let c = line[2];
    assert(a == line_coords(k)[0]);
    assert(b == line_coords(k)[1]);
    assert(c == line_coords(k)[2]);
    match board[a.0][a.1] {
        Some(q) => {
            if q == p {
                mine += 1;
            } else {
                theirs += 1;
            }
        },
        None => {
            empty = Some(a);
        },
    }
    match board[b.0][b.1] {
        Some(q) => {
            if q == p {
                mine += 1;
            } else {
                theirs += 1;
            }
        },
        None => {
            empty = Some(b);
        },
    }
    match board[c.0][c.1] {
        Some(q) => {
            if q == p {
                mine += 1;
            } else {
                theirs += 1;
            }
        },
        None => {
            empty = Some(c);
        },
    }
    (mine, theirs, empty)
}

/// The opening rule applies: fewer than six pieces are in the two histories
/// and the other side threatens a line.
pub open spec fn must_block(g: GameView) -> bool {
    g.moves_x.len() + g.moves_o.len() < 6 && block_move(g.board, g.current_player) is Some
}

} // verus!
