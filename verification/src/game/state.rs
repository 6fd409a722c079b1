use crate::ai::Difficulty;
use crate::grid::{
    blank_board, empties, empties_below, empty_board, first_complete_from, first_complete_line,
    lemma_empties, lemma_first_complete_line, lemma_with_cell, line_complete, line_coords,
    occupant_at, on_grid, opponent, win_patterns, with_cell, Board, Cell, Player,
};
use vstd::prelude::*;

verus! {

/// One game: the grid, whose turn it is, each side's live pieces from oldest
/// to newest, and the verdict once a line is complete.
#[derive(Debug)]
pub struct GameState {
    pub board: Board,
    pub current_player: Player,
    pub moves_x: Vec<Cell>,
    pub moves_o: Vec<Cell>,
    pub winner: Option<Player>,
    pub winning_line: Option<[Cell; 3]>,
    pub is_ai_game: bool,
    pub difficulty: Option<Difficulty>,
}

/// A game as a mathematical value.
pub struct GameView {
    pub board: Board,
    pub current_player: Player,
    pub moves_x: Seq<Cell>,
    pub moves_o: Seq<Cell>,
    pub winner: Option<Player>,
    pub winning_line: Option<Seq<Cell>>,
    pub is_ai_game: bool,
    pub difficulty: Option<Difficulty>,
}

/// Where a game stands.
#[derive(Clone, Copy, Debug, PartialEq, Eq, Structural)]
pub enum Outcome {
    Won(Player),
    Drawn,
    InProgress,
}

/// Every cell of the history lies on the grid.
pub open spec fn in_range(h: Seq<Cell>) -> bool {
    forall|i: int| 0 <= i < h.len() ==> (#[trigger] h[i]).0 < 3 && h[i].1 < 3
}

/// The pieces of side `p` on the grid are exactly the cells of history `h`.
pub open spec fn tracks(b: Board, h: Seq<Cell>, p: Player) -> bool {
    forall|r: int, c: int|
        on_grid(r, c) ==> ((#[trigger] b[r][c]) == Some(p) <==> h.contains(
            (r as usize, c as usize),
        ))
}

/// A history after one more placement: the new cell at the end, and the
/// oldest cell dropped once more than three are held.
pub open spec fn slid_history(h: Seq<Cell>, m: Cell) -> Seq<Cell> {
    if h.len() + 1 > 3 {
        h.push(m).remove(0)
    } else {
        h.push(m)
    }
}

/// The grid after side `p`, with history `h`, places a piece on `m`: the
/// piece is set down first, and only then the cell of the dropped piece, if
/// one is dropped, is cleared.
pub open spec fn slid_board(b: Board, h: Seq<Cell>, m: Cell, p: Player) -> Board {
    let set = with_cell(b, m.0 as int, m.1 as int, Some(p));
    if h.len() + 1 > 3 {
        with_cell(set, h.push(m)[0].0 as int, h.push(m)[0].1 as int, None)
    } else {
        set
    }
}

impl GameView {
    /// The live pieces of side `p`, oldest first.
    pub open spec fn history(self, p: Player) -> Seq<Cell> {
        match p {
            Player::X => self.moves_x,
            Player::O => self.moves_o,
        }
    }

    /// Both histories name cells of the grid only.
    pub open spec fn playable(self) -> bool {
        in_range(self.moves_x) && in_range(self.moves_o)
    }

    /// The recorded verdict is what a scan of the grid gives: the owner of
    /// the first complete line with that line, or nothing.
    pub open spec fn judged(self) -> bool {
        match first_complete_line(self.board) {
            Some(k) => self.winner == occupant_at(self.board, k, 0) && self.winning_line == Some(
                line_coords(k),
            ),
            None => self.winner is None && self.winning_line is None,
        }
    }

    /// The invariant of a game that is played by the rules: each side holds
    /// at most three pieces, its history lists exactly the cells it holds,
    /// each once, and the verdict is current.
    pub open spec fn wf(self) -> bool {
        &&& self.playable()
        &&& self.moves_x.len() <= 3
        &&& self.moves_o.len() <= 3
        &&& self.moves_x.no_duplicates()
        &&& self.moves_o.no_duplicates()
        &&& tracks(self.board, self.moves_x, Player::X)
        &&& tracks(self.board, self.moves_o, Player::O)
        &&& self.judged()
    }

    /// A game before its first move, `X` to play.
    pub open spec fn is_fresh(self, is_ai_game: bool, difficulty: Option<Difficulty>) -> bool {
        &&& blank_board(self.board)
        &&& self.current_player == Player::X
        &&& self.moves_x == Seq::<Cell>::empty()
        &&& self.moves_o == Seq::<Cell>::empty()
        &&& self.winner is None
        &&& self.winning_line is None
        &&& self.is_ai_game == is_ai_game
        &&& self.difficulty == difficulty
    }

    /// The game after the grid is scanned for a complete line: the first one
    /// found sets the verdict, and without one the verdict stays as it was.
    pub open spec fn scanned(self) -> GameView {
        match first_complete_line(self.board) {
            Some(k) => GameView {
                winner: occupant_at(self.board, k, 0),
                winning_line: Some(line_coords(k)),
                ..self
            },
            None => self,
        }
    }

    /// A piece may be placed on (r, c): nobody has won and the cell is empty.
    pub open spec fn accepts(self, r: int, c: int) -> bool {
        self.winner is None && self.board[r][c] is None
    }

    /// The game after the side to move has set a piece on (r, c), before the
    /// grid is scanned and the turn passes.
    pub open spec fn dropped(self, r: int, c: int) -> GameView {
        let p = self.current_player;
        let m = (r as usize, c as usize);
        let h = slid_history(self.history(p), m);
        GameView {
            board: slid_board(self.board, self.history(p), m, p),
            moves_x: if p == Player::X {
                h
            } else {
                self.moves_x
            },
            moves_o: if p == Player::O {
                h
            } else {
                self.moves_o
            },
            ..self
        }
    }

    /// The game with the turn passed on, unless somebody has won.
    pub open spec fn turned(self) -> GameView {
        if self.winner is None {
            GameView { current_player: opponent(self.current_player), ..self }
        } else {
            self
        }
    }

    /// The game after a placement on (r, c): unchanged where the placement is
    /// refused; else the piece is set, the window slides, the grid is scanned
    /// and the turn passes.
    pub open spec fn place(self, r: int, c: int) -> GameView {
        if self.accepts(r, c) {
            self.dropped(r, c).scanned().turned()
        } else {
            self
        }
    }

    /// Where the game stands: won once a winner is recorded, drawn where no
    /// cell is empty, in progress otherwise.
    pub open spec fn outcome(self) -> Outcome {
        match self.winner {
            Some(p) => Outcome::Won(p),
            None => if empties(self.board).len() == 0 {
                Outcome::Drawn
            } else {
                Outcome::InProgress
            },
        }
    }
}

impl View for GameState {
    type V = GameView;

    open spec fn view(&self) -> GameView {
        GameView {
            board: self.board,
            current_player: self.current_player,
            moves_x: self.moves_x@,
            moves_o: self.moves_o@,
            winner: self.winner,
            winning_line: match self.winning_line {
                Some(l) => Some(l@),
                None => None,
            },
            is_ai_game: self.is_ai_game,
            difficulty: self.difficulty,
        }
    }
}

/// The index of the first complete line of the grid, in the fixed order.
pub fn find_line(board: &Board) -> (found: Option<usize>)
    ensures
        match found {
            Some(k) => k < 8 && first_complete_line(*board) == Some(k as int),
            None => first_complete_line(*board) is None,
        },
{
    let patterns = win_patterns();
    let mut k: usize = 0;
    while k < 8
        invariant
            0 <= k <= 8,
            first_complete_line(*board) == first_complete_from(*board, k as int),
            forall|n: int| 0 <= n < 8 ==> (#[trigger] patterns[n])@ == line_coords(n),
        decreases 8 - k,
    {
        assert(patterns[k as int]@ == line_coords(k as int));
        let a = patterns[k][0];
        let b = patterns[k][1];
        let c = patterns[k][2];
        assert(a == line_coords(k as int)[0]);
        assert(b == line_coords(k as int)[1]);
        assert(c == line_coords(k as int)[2]);
        if board[a.0][a.1].is_some() && board[a.0][a.1] == board[b.0][b.1] && board[a.0][a.1]
            == board[c.0][c.1] {
            return Some(k);
        }
        k += 1;
    }
    None
}

/// Copies a history.
fn copy_history(h: &Vec<Cell>) -> (r: Vec<Cell>)
    ensures
        r@ == h@,
{
    let mut r: Vec<Cell> = Vec::new();
    let mut i: usize = 0;
    while i < h.len()
        invariant
            0 <= i <= h.len(),
            r@ == h@.subrange(0, i as int),
        decreases h.len() - i,
    {
        r.push(h[i]);
        assert(r@ =~= h@.subrange(0, i + 1));
        i += 1;
    }
    assert(h@.subrange(0, h.len() as int) =~= h@);
    r
}

/// Records a placement on (x, y) by side `p` in its history and on the grid,
/// dropping the side's oldest piece once it holds more than three.
fn slide(moves: &mut Vec<Cell>, board: &mut Board, x: usize, y: usize, p: Player)
    requires
        x < 3,
        y < 3,
        in_range(old(moves)@),
    ensures
        final(moves)@ == slid_history(old(moves)@, (x, y)),
        *final(board) == slid_board(*old(board), old(moves)@, (x, y), p),
        in_range(final(moves)@),
{
    board[x][y] = Some(p);
    moves.push((x, y));
    if moves.len() > 3 {
        let (old_x, old_y) = moves.remove(0);
        assert(old_x < 3 && old_y < 3) by {
            if old(moves)@.len() > 0 {
                assert(old(moves)@.push((x, y))[0] == old(moves)@[0]);
            }
        }
        board[old_x][old_y] = None;
    }
    assert(*board =~= slid_board(*old(board), old(moves)@, (x, y), p));
}

impl Clone for GameState {
    fn clone(&self) -> (r: Self)
        ensures
            r@ == self@,
    {
        GameState {
            board: self.board,
            current_player: self.current_player,
            moves_x: copy_history(&self.moves_x),
            moves_o: copy_history(&self.moves_o),
            winner: self.winner,
            winning_line: self.winning_line,
            is_ai_game: self.is_ai_game,
            difficulty: self.difficulty,
        }
    }
}

impl GameState {
    /// A game before its first move, with `X` to play.
    pub fn new(is_ai_game: bool, difficulty: Option<Difficulty>) -> (g: Self)
        ensures
            g@.is_fresh(is_ai_game, difficulty),
            g@.wf(),
    {
        let g = GameState {
            board: empty_board(),
            current_player: Player::X,
            moves_x: Vec::new(),
            moves_o: Vec::new(),
            winner: None,
            winning_line: None,
            is_ai_game,
            difficulty,
        };
        proof {
            lemma_fresh_wf(g@, is_ai_game, difficulty);
        }
        g
    }

    /// Places a piece of the side to move on (x, y). Returns whether the
    /// piece was placed: it is not where somebody has won or the cell is
    /// taken, and the game is then unchanged.
    pub fn place_piece(&mut self, x: usize, y: usize) -> (placed: bool)
        requires
            x < 3,
            y < 3,
            old(self)@.playable(),
        ensures
            placed == old(self)@.accepts(x as int, y as int),
            final(self)@ == old(self)@.place(x as int, y as int),
            final(self)@.playable(),
            old(self)@.wf() ==> final(self)@.wf(),
    {
        if self.winner.is_some() {
            return false;
        }
        if self.board[x][y].is_none() {
            let p = self.current_player;
            match p {
                Player::X => slide(&mut self.moves_x, &mut self.board, x, y, p),
                Player::O => slide(&mut self.moves_o, &mut self.board, x, y, p),
            }
            assert(self@ == old(self)@.dropped(x as int, y as int));
            self.check_winner();
            if self.winner.is_none() {
                self.current_player = self.current_player.other();
            }
            proof {
                if old(self)@.wf() {
                    lemma_place_keeps_wf(old(self)@, x as int, y as int);
                }
            }
            true
        } else {
            false
        }
    }

    /// Clears the cell (x, y) and nothing else: neither history nor the
    /// verdict follows.
    pub fn undo_move(&mut self, x: usize, y: usize)
        requires
            x < 3,
            y < 3,
        ensures
            final(self)@ == (GameView {
                board: with_cell(old(self)@.board, x as int, y as int, None),
                ..old(self)@
            }),
    {
        self.board[x][y] = None;
        assert(self.board =~= with_cell(old(self)@.board, x as int, y as int, None));
    }

    /// Scans the grid for a complete line and records the first one found,
    /// with its owner.
    pub fn check_winner(&mut self)
        ensures
            final(self)@ == old(self)@.scanned(),
    {
        let patterns = win_patterns();
        match find_line(&self.board) {
            Some(k) => {
                let a = patterns[k][0];
                assert(patterns[k as int]@ == line_coords(k as int));
                assert(a == line_coords(k as int)[0]);
                self.winner = self.board[a.0][a.1];
                self.winning_line = Some(patterns[k]);
            },
            None => {},
        }
    }

    /// The empty cells in row-major order.
    pub fn available_moves(&self) -> (moves: Vec<Cell>)
        ensures
            moves@ == empties(self@.board),
    {
        let mut moves: Vec<Cell> = Vec::new();
        let mut i: usize = 0;
        while i < 9
            invariant
                0 <= i <= 9,
                moves@ == empties_below(self.board, i as int),
            decreases 9 - i,
        {
            let x: usize = i / 3;
            let y: usize = i % 3;
            if self.board[x][y].is_none() {
                moves.push((x, y));
            }
            i += 1;
        }
        moves
    }

    /// Returns the game to its start. Whether the computer plays, and how
    /// strongly, stays as it was.
    pub fn reset(&mut self)
        ensures
            final(self)@.is_fresh(old(self)@.is_ai_game, old(self)@.difficulty),
            final(self)@.wf(),
    {
        self.board = empty_board();
        self.moves_x.clear();
        self.moves_o.clear();
        self.winner = None;
        self.winning_line = None;
        self.current_player = Player::X;
        proof {
            lemma_fresh_wf(self@, self.is_ai_game, self.difficulty);
        }
    }

    /// Where the game stands.
    pub fn outcome(&self) -> (o: Outcome)
        ensures
            o == self@.outcome(),
    {
        match self.winner {
            Some(p) => Outcome::Won(p),
            None => {
                let moves = self.available_moves();
                if moves.len() == 0 {
                    Outcome::Drawn
                } else {
                    Outcome::InProgress
                }
            },
        }
    }
}

/// A fresh game satisfies the invariant.
pub proof fn lemma_fresh_wf(g: GameView, is_ai_game: bool, difficulty: Option<Difficulty>)
    requires
        g.is_fresh(is_ai_game, difficulty),
    ensures
        g.wf(),
{
    lemma_first_complete_line(g.board);
}

/// A placement by the rules keeps the invariant.
pub proof fn lemma_place_keeps_wf(g: GameView, r: int, c: int)
    requires
        g.wf(),
        on_grid(r, c),
    ensures
        g.place(r, c).wf(),
{
    if g.accepts(r, c) {
        let p = g.current_player;
        let q = opponent(p);
        let m = (r as usize, c as usize);
        let h = g.history(p);
        let d = g.dropped(r, c);
        let h1 = h.push(m);
        lemma_with_cell(g.board, r, c, Some(p));
        let set = with_cell(g.board, r, c, Some(p));
        assert(!h.contains(m));
        assert(h1.no_duplicates());
        assert(in_range(h1));
        assert forall|r2: int, c2: int| on_grid(r2, c2) implies ((#[trigger] set[r2][c2]) == Some(
            p,
        ) <==> h1.contains((r2 as usize, c2 as usize))) by {
            let m2 = (r2 as usize, c2 as usize);
            if h.contains(m2) {
                let i = choose|i: int| 0 <= i < h.len() && h[i] == m2;
                assert(h1[i] == m2);
            }
            if r2 == r && c2 == c {
                assert(h1[h.len() as int] == m2);
            }
            assert(g.board[r2][c2] == Some(p) <==> h.contains(m2));
        }
        assert(tracks(set, h1, p));
        if h.len() + 1 > 3 {
            let e = h1[0];
            let h2 = h1.remove(0);
            assert(e == h[0]);
            lemma_with_cell(set, e.0 as int, e.1 as int, None);
            let b2 = with_cell(set, e.0 as int, e.1 as int, None);
            assert(d.board == b2);
            assert(d.history(p) == h2);
            assert forall|i: int| 0 <= i < h2.len() implies #[trigger] h2[i] == h1[i + 1] by {}
            assert(h2.no_duplicates());
            assert(in_range(h2));
            assert forall|r2: int, c2: int| on_grid(r2, c2) implies ((#[trigger] b2[r2][c2])
                == Some(p) <==> h2.contains((r2 as usize, c2 as usize))) by {
                let m2 = (r2 as usize, c2 as usize);
                if h2.contains(m2) {
                    let i = choose|i: int| 0 <= i < h2.len() && h2[i] == m2;
                    assert(h1[i + 1] == m2);
                    assert(h1.contains(m2));
                    assert(m2 != e);
                }
                if h1.contains(m2) && m2 != e {
                    let i = choose|i: int| 0 <= i < h1.len() && h1[i] == m2;
                    assert(h2[i - 1] == m2);
                }
                assert(set[r2][c2] == Some(p) <==> h1.contains(m2));
            }
            assert(tracks(d.board, d.history(p), p));
            assert forall|r2: int, c2: int| on_grid(r2, c2) implies ((#[trigger] b2[r2][c2])
                == Some(q) <==> g.history(q).contains((r2 as usize, c2 as usize))) by {
                assert(g.board[r2][c2] == Some(q) <==> g.history(q).contains(
                    (r2 as usize, c2 as usize),
                ));
                assert(g.board[e.0 as int][e.1 as int] == Some(p));
            }
        } else {
            assert(d.board == set);
            assert(d.history(p) == h1);
            assert forall|r2: int, c2: int| on_grid(r2, c2) implies ((#[trigger] set[r2][c2])
                == Some(q) <==> g.history(q).contains((r2 as usize, c2 as usize))) by {
                assert(g.board[r2][c2] == Some(q) <==> g.history(q).contains(
                    (r2 as usize, c2 as usize),
                ));
            }
        }
        assert(tracks(d.board, d.history(p), p));
        assert(tracks(d.board, d.history(q), q));
        assert(d.history(q) == g.history(q));
        lemma_first_complete_line(d.board);
        lemma_first_complete_line(g.board);
    }
}

/// The cells on which side `p` stands.
pub open spec fn holdings(b: Board, p: Player) -> Set<Cell> {
    Set::new(|m: Cell| m.0 < 3 && m.1 < 3 && b[m.0 as int][m.1 as int] == Some(p))
}

/// The game after the placements `moves` are tried in order from `g`.
pub open spec fn play(g: GameView, moves: Seq<Cell>) -> GameView
    decreases moves.len(),
{
    if moves.len() == 0 {
        g
    } else {
        play(g.place(moves[0].0 as int, moves[0].1 as int), moves.drop_first())
    }
}

/// In a game that satisfies the invariant a side stands on as many cells
/// as its history lists, which is three at most.
pub proof fn lemma_at_most_three(g: GameView, p: Player)
    requires
        g.wf(),
    ensures
        holdings(g.board, p).finite(),
        holdings(g.board, p).len() == g.history(p).len(),
        holdings(g.board, p).len() <= 3,
{
    let h = g.history(p);
    assert forall|m: Cell| holdings(g.board, p).contains(m) <==> h.to_set().contains(m) by {
        if h.contains(m) {
            let i = choose|i: int| 0 <= i < h.len() && h[i] == m;
            assert(m.0 < 3 && m.1 < 3);
        }
        if m.0 < 3 && m.1 < 3 {
            assert(g.board[m.0 as int][m.1 as int] == Some(p) <==> h.contains(
                (m.0 as int as usize, m.1 as int as usize),
            ));
        }
    }
    assert(holdings(g.board, p) =~= h.to_set());
    vstd::seq_lib::seq_to_set_is_finite(h);
    h.unique_seq_to_set();
}

/// Any run of placements on the grid keeps the invariant.
pub proof fn lemma_play_keeps_wf(g: GameView, moves: Seq<Cell>)
    requires
        g.wf(),
        in_range(moves),
    ensures
        play(g, moves).wf(),
    decreases moves.len(),
{
    if moves.len() > 0 {
        lemma_place_keeps_wf(g, moves[0].0 as int, moves[0].1 as int);
        lemma_play_keeps_wf(g.place(moves[0].0 as int, moves[0].1 as int), moves.drop_first());
    }
}

/// However a game is played from its start, neither side ever stands on
/// more than three cells.
pub proof fn lemma_never_more_than_three(
    g: GameView,
    is_ai_game: bool,
    difficulty: Option<Difficulty>,
    moves: Seq<Cell>,
    p: Player,
)
    requires
        g.is_fresh(is_ai_game, difficulty),
        in_range(moves),
    ensures
        holdings(play(g, moves).board, p).finite(),
        holdings(play(g, moves).board, p).len() <= 3,
{
    lemma_fresh_wf(g, is_ai_game, difficulty);
    lemma_play_keeps_wf(g, moves);
    lemma_at_most_three(play(g, moves), p);
}

/// A side that holds three pieces and places a fourth loses its oldest:
/// that cell becomes empty, the new cell is the side's, every other cell
/// stays as it was, and so does the other side's history.
pub proof fn lemma_fourth_placement(g: GameView, r: int, c: int)
    requires
        g.wf(),
        on_grid(r, c),
        g.accepts(r, c),
        g.history(g.current_player).len() == 3,
    ensures
        ({
            let p = g.current_player;
            let oldest = g.history(p)[0];
            let after = g.place(r, c);
            &&& after.board[oldest.0 as int][oldest.1 as int] is None
            &&& after.board[r][c] == Some(p)
            &&& forall|r2: int, c2: int|
                on_grid(r2, c2) && !(r2 == r && c2 == c) && !(r2 == oldest.0 && c2 == oldest.1)
                    ==> #[trigger] after.board[r2][c2] == g.board[r2][c2]
            &&& forall|r2: int, c2: int|
                on_grid(r2, c2) ==> (#[trigger] after.board[r2][c2] == Some(opponent(p))
                    <==> g.board[r2][c2] == Some(opponent(p)))
            &&& after.history(opponent(p)) == g.history(opponent(p))
            &&& after.history(p) == g.history(p).drop_first().push((r as usize, c as usize))
        }),
{
    let p = g.current_player;
    let h = g.history(p);
    let m = (r as usize, c as usize);
    let oldest = h[0];
    assert(h.push(m)[0] == oldest);
    assert(h.contains(oldest));
    assert(g.board[oldest.0 as int][oldest.1 as int] == Some(p));
    let set = with_cell(g.board, r, c, Some(p));
    lemma_with_cell(g.board, r, c, Some(p));
    lemma_with_cell(set, oldest.0 as int, oldest.1 as int, None);
    assert(h.push(m).remove(0) =~= h.drop_first().push(m));
}

/// A grid without an empty cell and without a complete line is a draw: the
/// game is neither won nor in progress.
pub proof fn lemma_full_grid_is_drawn(g: GameView)
    requires
        g.judged(),
        forall|r: int, c: int| on_grid(r, c) ==> (#[trigger] g.board[r][c]) is Some,
        forall|k: int| 0 <= k < 8 ==> !line_complete(g.board, k),
    ensures
        g.outcome() == Outcome::Drawn,
{
    lemma_first_complete_line(g.board);
    lemma_empties(g.board);
    if empties(g.board).len() > 0 {
        let m = empties(g.board)[0];
        assert(g.board[m.0 as int][m.1 as int] is None);
    }
}

/// A game is in progress only while nobody has won and a cell is empty.
pub proof fn lemma_in_progress(g: GameView)
    ensures
        g.outcome() == Outcome::InProgress <==> g.winner is None && exists|r: int, c: int|
            on_grid(r, c) && (#[trigger] g.board[r][c]) is None,
{
    lemma_empties(g.board);
    if empties(g.board).len() > 0 {
        let m = empties(g.board)[0];
        assert(on_grid(m.0 as int, m.1 as int) && g.board[m.0 as int][m.1 as int] is None);
    }
    if exists|r: int, c: int| on_grid(r, c) && (#[trigger] g.board[r][c]) is None {
        let (r, c) = choose|r: int, c: int| on_grid(r, c) && (#[trigger] g.board[r][c]) is None;
        assert(empties(g.board).contains((r as usize, c as usize)));
    }
}

} // verus!
