//! The 3x3 grid: its cells, its eight lines, the row-major scan for empty
//! cells and the integer code of a position.

use vstd::prelude::*;

verus! {

/// One of the two sides. `X` moves first.
#[derive(Clone, Copy, Debug, PartialEq, Eq, Hash, Structural)]
pub enum Player {
    X,
    O,
}

/// The grid, indexed by row and then by column.
pub type Board = [[Option<Player>; 3]; 3];

/// A cell, as (row, column).
pub type Cell = (usize, usize);

/// The side that is not `p`.
pub open spec fn opponent(p: Player) -> Player {
    match p {
        Player::X => Player::O,
        Player::O => Player::X,
    }
}

impl Player {
    /// The other side.
    pub fn other(self) -> (r: Player)
        ensures
            r == opponent(self),
    {
        match self {
            Player::X => Player::O,
            Player::O => Player::X,
        }
    }

    /// The letter by which the side is shown.
    pub fn symbol(self) -> (r: char)
        ensures
            r == (match self {
                Player::X => 'X',
                Player::O => 'O',
            }),
    {
        match self {
            Player::X => 'X',
            Player::O => 'O',
        }
    }
}

/// Whether (r, c) names a cell of the grid.
pub open spec fn on_grid(r: int, c: int) -> bool {
    0 <= r < 3 && 0 <= c < 3
}

/// The grid `b` with cell (r, c) set to `v`.
pub open spec fn with_cell(b: Board, r: int, c: int, v: Option<Player>) -> Board {
    vstd::array::spec_array_update(b, r, vstd::array::spec_array_update(b[r], c, v))
}

/// What `with_cell` does to each cell.
pub proof fn lemma_with_cell(b: Board, r: int, c: int, v: Option<Player>)
    requires
        on_grid(r, c),
    ensures
        with_cell(b, r, c, v)[r][c] == v,
        forall|r2: int, c2: int|
            on_grid(r2, c2) && !(r2 == r && c2 == c) ==> #[trigger] with_cell(b, r, c, v)[r2][c2]
                == b[r2][c2],
{
}

/// The grid with no piece on it.
pub open spec fn blank_board(b: Board) -> bool {
    forall|r: int, c: int| on_grid(r, c) ==> (#[trigger] b[r][c]) is None
}

/// The `j`-th cell of line `k`. Lines 0 to 2 are the rows, 3 to 5 the
/// columns, 6 is the diagonal from the top left and 7 the one from the top
/// right; each line is listed from its top (or left) end.
pub open spec fn line_cell(k: int, j: int) -> (int, int) {
    if k < 3 {
        (k, j)
    } else if k < 6 {
        (j, k - 3)
    } else if k == 6 {
        (j, j)
    } else {
        (j, 2 - j)
    }
}

/// Line `k` as the three cells that a caller is shown.
pub open spec fn line_coords(k: int) -> Seq<Cell> {
    Seq::new(3, |j: int| (line_cell(k, j).0 as usize, line_cell(k, j).1 as usize))
}

/// Who stands on the `j`-th cell of line `k`.
pub open spec fn occupant_at(b: Board, k: int, j: int) -> Option<Player> {
    b[line_cell(k, j).0][line_cell(k, j).1]
}

/// Line `k` holds three pieces of one side.
pub open spec fn line_complete(b: Board, k: int) -> bool {
    &&& occupant_at(b, k, 0) is Some
    &&& occupant_at(b, k, 0) == occupant_at(b, k, 1)
    &&& occupant_at(b, k, 0) == occupant_at(b, k, 2)
}

/// The first complete line at or after `k` in the fixed order, if any.
pub open spec fn first_complete_from(b: Board, k: int) -> Option<int>
    decreases 8 - k,
{
    if k < 0 || k >= 8 {
        None
    } else if line_complete(b, k) {
        Some(k)
    } else {
        first_complete_from(b, k + 1)
    }
}

/// The first complete line in the fixed order: rows, columns, diagonals.
pub open spec fn first_complete_line(b: Board) -> Option<int> {
    first_complete_from(b, 0)
}

/// `first_complete_line` names a complete line that no complete line
/// precedes, and names none only where no line is complete.
pub proof fn lemma_first_complete_line(b: Board)
    ensures
        match first_complete_line(b) {
            Some(k) => 0 <= k < 8 && line_complete(b, k) && forall|j: int|
                0 <= j < k ==> !line_complete(b, j),
            None => forall|j: int| 0 <= j < 8 ==> !line_complete(b, j),
        },
{
    lemma_first_complete_from(b, 0);
}

proof fn lemma_first_complete_from(b: Board, k: int)
    requires
        0 <= k <= 8,
    ensures
        match first_complete_from(b, k) {
            Some(n) => k <= n < 8 && line_complete(b, n) && forall|j: int|
                k <= j < n ==> !line_complete(b, j),
            None => forall|j: int| k <= j < 8 ==> !line_complete(b, j),
        },
    decreases 8 - k,
{
    if k < 8 && !line_complete(b, k) {
        lemma_first_complete_from(b, k + 1);
    }
}

/// The `i`-th cell of the row-major scan.
pub open spec fn scan_cell(i: int) -> Cell {
    ((i / 3) as usize, (i % 3) as usize)
}

/// What stands on the `i`-th cell of the row-major scan.
pub open spec fn scan_at(b: Board, i: int) -> Option<Player> {
    b[i / 3][i % 3]
}

/// The empty cells among the first `n` of the row-major scan, in scan order.
pub open spec fn empties_below(b: Board, n: int) -> Seq<Cell>
    decreases n,
{
    if n <= 0 {
        Seq::empty()
    } else if scan_at(b, n - 1) is None {
        empties_below(b, n - 1).push(scan_cell(n - 1))
    } else {
        empties_below(b, n - 1)
    }
}

/// The empty cells of the grid in row-major order.
pub open spec fn empties(b: Board) -> Seq<Cell> {
    empties_below(b, 9)
}

/// The row-major scan lists exactly the empty cells of the grid, each on the
/// grid, and at most nine of them.
pub proof fn lemma_empties(b: Board)
    ensures
        empties(b).len() <= 9,
        forall|i: int|
            0 <= i < empties(b).len() ==> (#[trigger] empties(b)[i]).0 < 3 && empties(b)[i].1 < 3
                && b[empties(b)[i].0 as int][empties(b)[i].1 as int] is None,
        forall|r: int, c: int|
            on_grid(r, c) && (#[trigger] b[r][c]) is None ==> empties(b).contains(
                (r as usize, c as usize),
            ),
{
    lemma_empties_below(b, 9);
    assert forall|r: int, c: int| on_grid(r, c) && (#[trigger] b[r][c]) is None implies empties(
        b,
    ).contains((r as usize, c as usize)) by {
        let i = 3 * r + c;
        assert(scan_cell(i) == (r as usize, c as usize));
        assert(scan_at(b, i) is None);
    }
}

proof fn lemma_empties_below(b: Board, n: int)
    requires
        0 <= n <= 9,
    ensures
        empties_below(b, n).len() <= n,
        forall|i: int|
            0 <= i < empties_below(b, n).len() ==> (#[trigger] empties_below(b, n)[i]).0 < 3
                && empties_below(b, n)[i].1 < 3 && b[empties_below(b, n)[i].0 as int][empties_below(
                b,
                n,
            )[i].1 as int] is None,
        forall|i: int|
            0 <= i < n && scan_at(b, i) is None ==> empties_below(b, n).contains(
                #[trigger] scan_cell(i),
            ),
    decreases n,
{
    if n > 0 {
        lemma_empties_below(b, n - 1);
        let prev = empties_below(b, n - 1);
        let cur = empties_below(b, n);
        assert forall|i: int| 0 <= i < n && scan_at(b, i) is None implies cur.contains(
            #[trigger] scan_cell(i),
        ) by {
            if i < n - 1 {
                let j = choose|j: int| 0 <= j < prev.len() && prev[j] == scan_cell(i);
                assert(cur[j] == scan_cell(i));
            } else {
                assert(cur[cur.len() - 1] == scan_cell(i));
            }
        }
    }
}

/// The digit that stands for a cell's content in a position's code.
pub open spec fn cell_code(v: Option<Player>) -> int {
    match v {
        None => 0,
        Some(Player::X) => 1,
        Some(Player::O) => 2,
    }
}

/// The first `n` cells of the row-major scan, read as a number in base 3.
pub open spec fn code_below(b: Board, n: int) -> int
    decreases n,
{
    if n <= 0 {
        0
    } else {
        3 * code_below(b, n - 1) + cell_code(scan_at(b, n - 1))
    }
}

/// The code of a position: the grid in base 3, doubled, plus one where the
/// side to move maximizes.
pub open spec fn position_code(b: Board, maximizing: bool) -> int {
    2 * code_below(b, 9) + if maximizing {
        1int
    } else {
        0int
    }
}

/// The code of a position as a key. The code is below 39366, so nothing is
/// lost.
pub open spec fn position_key(b: Board, maximizing: bool) -> u64 {
    position_code(b, maximizing) as u64
}

/// 3 to the power `n`.
pub open spec fn pow3(n: int) -> int
    decreases n,
{
    if n <= 0 {
        1
    } else {
        3 * pow3(n - 1)
    }
}

/// The code of the first `n` cells is below 3 to the power `n`.
pub proof fn lemma_code_bound(b: Board, n: int)
    requires
        0 <= n <= 9,
    ensures
        0 <= code_below(b, n) < pow3(n),
        pow3(n) <= 19683,
    decreases n,
{
    reveal_with_fuel(pow3, 11);
    if n > 0 {
        lemma_code_bound(b, n - 1);
    }
}

proof fn lemma_code_injective_below(a: Board, b: Board, n: int)
    requires
        0 <= n <= 9,
        code_below(a, n) == code_below(b, n),
    ensures
        forall|i: int| 0 <= i < n ==> #[trigger] scan_at(a, i) == scan_at(b, i),
    decreases n,
{
    if n > 0 {
        lemma_code_bound(a, n - 1);
        lemma_code_bound(b, n - 1);
        assert(code_below(a, n - 1) == code_below(b, n - 1));
        assert(cell_code(scan_at(a, n - 1)) == cell_code(scan_at(b, n - 1)));
        lemma_code_injective_below(a, b, n - 1);
    }
}

/// Two positions have the same code only if they are the same position:
/// every cell agrees, and the same side maximizes.
pub proof fn lemma_position_code_injective(a: Board, ma: bool, b: Board, mb: bool)
    requires
        position_code(a, ma) == position_code(b, mb),
    ensures
        a == b,
        ma == mb,
{
    assert(code_below(a, 9) == code_below(b, 9));
    lemma_code_injective_below(a, b, 9);
    assert forall|r: int| 0 <= r < 3 implies a[r] == b[r] by {
        assert forall|c: int| 0 <= c < 3 implies a[r][c] == b[r][c] by {
            let i = 3 * r + c;
            assert(i / 3 == r && i % 3 == c);
            assert(scan_at(a, i) == scan_at(b, i));
        }
        assert(a[r] =~= b[r]);
    }
    assert(a =~= b);
}

/// The code of a position lies below 39366, so the key is the code.
pub proof fn lemma_position_code_bound(b: Board, maximizing: bool)
    ensures
        0 <= position_code(b, maximizing) < 39366,
        position_key(b, maximizing) == position_code(b, maximizing),
{
    lemma_code_bound(b, 9);
}

/// Two positions have the same key only if they are the same position.
pub proof fn lemma_position_key_injective(a: Board, ma: bool, b: Board, mb: bool)
    requires
        position_key(a, ma) == position_key(b, mb),
    ensures
        a == b,
        ma == mb,
{
    lemma_position_code_bound(a, ma);
    lemma_position_code_bound(b, mb);
    lemma_position_code_injective(a, ma, b, mb);
}

/// A grid with no piece on it.
pub fn empty_board() -> (b: Board)
    ensures
        blank_board(b),
{
    [[None, None, None], [None, None, None], [None, None, None]]
}

/// The eight lines in the order in which they are scanned.
pub fn win_patterns() -> (p: [[Cell; 3]; 8])
    ensures
        forall|k: int| 0 <= k < 8 ==> (#[trigger] p[k])@ == line_coords(k),
{
    let p = [
        [(0, 0), (0, 1), (0, 2)],
        [(1, 0), (1, 1), (1, 2)],
        [(2, 0), (2, 1), (2, 2)],
        [(0, 0), (1, 0), (2, 0)],
        [(0, 1), (1, 1), (2, 1)],
        [(0, 2), (1, 2), (2, 2)],
        [(0, 0), (1, 1), (2, 2)],
        [(0, 2), (1, 1), (2, 0)],
    ];
    assert forall|k: int| 0 <= k < 8 implies (#[trigger] p[k])@ == line_coords(k) by {
        assert(p[k]@ =~= line_coords(k));
    }
    p
}

/// The key under which a search remembers a position.
pub fn board_key(board: &Board, maximizing: bool) -> (key: u64)
    ensures
        key == position_key(*board, maximizing),
        key == position_code(*board, maximizing),
{
    let mut code: u64 = 0;
    let mut i: usize = 0;
    while i < 9
        invariant
            0 <= i <= 9,
            code == code_below(*board, i as int),
        decreases 9 - i,
    {
        proof {
            lemma_code_bound(*board, i as int);
        }
        let digit: u64 = match board[i / 3][i % 3] {
            None => 0,
            Some(Player::X) => 1,
            Some(Player::O) => 2,
        };
        code = 3 * code + digit;
        i += 1;
    }
    proof {
        lemma_code_bound(*board, 9);
    }
    if maximizing {
        2 * code + 1
    } else {
        2 * code
    }
}

} // verus!
