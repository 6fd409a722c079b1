//! The search as a mathematical function: the value of a position with the
//! memo threaded through, the scores at the root, and the moves that tie
//! for the best.

use crate::ai::scoring::{evaluation, free_at, lemma_evaluation_range, line_weight};
use crate::ai::SearchConfig;
use crate::game::state::GameView;
use crate::grid::{empties, lemma_empties, position_key, Cell, Player};
use vstd::prelude::*;

verus! {

/// The positions that one search has already valued, by their code.
pub type Memo = Map<u64, i32>;

/// What a won game is worth to `me`.
pub open spec fn verdict_score(winner: Player, me: Player, cfg: SearchConfig) -> i32 {
    if winner == me {
        cfg.win_score
    } else {
        (-cfg.win_score) as i32
    }
}

/// The better of two scores for the side that moves.
pub open spec fn better(maximizing: bool, best: i32, score: i32) -> i32 {
    if maximizing {
        if score > best {
            score
        } else {
            best
        }
    } else {
        if score < best {
            score
        } else {
            best
        }
    }
}

/// The value of a position for `me`, `depth` moves deep, and the memo
/// after the search. The memo is keyed by the grid and by who moves, not by
/// depth or by the order of the pieces: a position met again takes the
/// value that it was first given, so the value depends on the memo that the
/// search starts from, and the memo is part of what is specified.
///
/// - a position in the memo has the value found there;
/// - a won game is worth the win weight, with the sign of the winner, and
///   is remembered;
/// - a grid without an empty cell is worth 0;
/// - at depth 0 the position is worth its count of lines;
/// - else it is worth the best of its moves for the side that moves, each
///   valued in turn one move less deep with the memo that the moves before
///   it left, and is remembered.
pub open spec fn search(
    g: GameView,
    me: Player,
    maximizing: bool,
    depth: nat,
    cfg: SearchConfig,
    memo: Memo,
) -> (i32, Memo)
    decreases depth, 1nat, 0nat,
{
    let key = position_key(g.board, maximizing);
    if memo.contains_key(key) {
        (memo[key], memo)
    } else if g.winner is Some {
        let score = verdict_score(g.winner->0, me, cfg);
        (score, memo.insert(key, score))
    } else if empties(g.board).len() == 0 {
        (0i32, memo)
    } else if depth == 0 {
        (evaluation(g.board, me, cfg) as i32, memo)
    } else {
        let start = if maximizing {
            i32::MIN
        } else {
            i32::MAX
        };
        let found = search_moves(g, me, maximizing, depth, cfg, empties(g.board), start, memo);
        (found.0, found.1.insert(key, found.0))
    }
}

/// The best score among `moves` from position `g`, starting from `best`,
/// and the memo after all of them were valued in order.
pub open spec fn search_moves(
    g: GameView,
    me: Player,
    maximizing: bool,
    depth: nat,
    cfg: SearchConfig,
    moves: Seq<Cell>,
    best: i32,
    memo: Memo,
) -> (i32, Memo)
    decreases depth, 0nat, moves.len(),
{
    if depth == 0 || moves.len() == 0 {
        (best, memo)
    } else {
        let child = g.place(moves[0].0 as int, moves[0].1 as int);
        let valued = search(child, me, !maximizing, (depth - 1) as nat, cfg, memo);
        search_moves(
            g,
            me,
            maximizing,
            depth,
            cfg,
            moves.drop_first(),
            better(maximizing, best, valued.0),
            valued.1,
        )
    }
}

/// Every position that `before` remembers is remembered by `after` with the
/// same value.
pub open spec fn keeps(before: Memo, after: Memo) -> bool {
    forall|k: u64| #[trigger]
        before.contains_key(k) ==> after.contains_key(k) && after[k] == before[k]
}

/// A search only adds to its memo: every position that was remembered
/// before is remembered after, with the value it had.
pub proof fn lemma_search_keeps_memo(
    g: GameView,
    me: Player,
    maximizing: bool,
    depth: nat,
    cfg: SearchConfig,
    memo: Memo,
)
    ensures
        keeps(memo, search(g, me, maximizing, depth, cfg, memo).1),
    decreases depth, 1nat, 0nat,
{
    let key = position_key(g.board, maximizing);
    if !memo.contains_key(key) && g.winner is None && empties(g.board).len() != 0 && depth != 0 {
        let start = if maximizing {
            i32::MIN
        } else {
            i32::MAX
        };
        lemma_search_moves_keeps_memo(
            g,
            me,
            maximizing,
            depth,
            cfg,
            empties(g.board),
            start,
            memo,
        );
    }
}

/// The same for the moves of one position.
pub proof fn lemma_search_moves_keeps_memo(
    g: GameView,
    me: Player,
    maximizing: bool,
    depth: nat,
    cfg: SearchConfig,
    moves: Seq<Cell>,
    best: i32,
    memo: Memo,
)
    ensures
        keeps(memo, search_moves(g, me, maximizing, depth, cfg, moves, best, memo).1),
    decreases depth, 0nat, moves.len(),
{
    if depth != 0 && moves.len() != 0 {
        let child = g.place(moves[0].0 as int, moves[0].1 as int);
        let valued = search(child, me, !maximizing, (depth - 1) as nat, cfg, memo);
        lemma_search_keeps_memo(child, me, !maximizing, (depth - 1) as nat, cfg, memo);
        lemma_search_moves_keeps_memo(
            g,
            me,
            maximizing,
            depth,
            cfg,
            moves.drop_first(),
            better(maximizing, best, valued.0),
            valued.1,
        );
    }
}

/// The largest size of a score that a search can give: the win weight, or
/// eight times the larger line weight where that is more.
pub open spec fn score_limit(cfg: SearchConfig) -> int {
    if cfg.win_score >= 8 * line_weight(cfg) {
        cfg.win_score as int
    } else {
        8 * line_weight(cfg)
    }
}

/// Every remembered value lies between `-limit` and `limit`.
pub open spec fn within(memo: Memo, limit: int) -> bool {
    forall|k: u64| #[trigger] memo.contains_key(k) ==> -limit <= memo[k] <= limit
}

/// A search that starts from a memo with values within the limit gives a
/// score within the limit and leaves such a memo: the bounds from which the
/// best move is sought never come out as a score.
pub proof fn lemma_search_range(
    g: GameView,
    me: Player,
    maximizing: bool,
    depth: nat,
    cfg: SearchConfig,
    memo: Memo,
)
    requires
        cfg.valid(),
        within(memo, score_limit(cfg)),
    ensures
        -score_limit(cfg) <= search(g, me, maximizing, depth, cfg, memo).0 <= score_limit(cfg),
        within(search(g, me, maximizing, depth, cfg, memo).1, score_limit(cfg)),
    decreases depth, 1nat, 0nat,
{
    let key = position_key(g.board, maximizing);
    if memo.contains_key(key) {
    } else if g.winner is Some {
    } else if empties(g.board).len() == 0 {
    } else if depth == 0 {
        lemma_evaluation_range(g.board, 8, me, cfg);
    } else {
        let start = if maximizing {
            i32::MIN
        } else {
            i32::MAX
        };
        lemma_search_moves_range(g, me, maximizing, depth, cfg, empties(g.board), start, memo);
    }
}

/// The same for the moves of one position: the best score lies within the
/// limit once one move was valued or the score to start from did.
pub proof fn lemma_search_moves_range(
    g: GameView,
    me: Player,
    maximizing: bool,
    depth: nat,
    cfg: SearchConfig,
    moves: Seq<Cell>,
    best: i32,
    memo: Memo,
)
    requires
        cfg.valid(),
        depth > 0,
        within(memo, score_limit(cfg)),
        maximizing ==> best <= score_limit(cfg),
        !maximizing ==> best >= -score_limit(cfg),
    ensures
        within(
            search_moves(g, me, maximizing, depth, cfg, moves, best, memo).1,
            score_limit(cfg),
        ),
        maximizing ==> search_moves(g, me, maximizing, depth, cfg, moves, best, memo).0
            <= score_limit(cfg),
        !maximizing ==> search_moves(g, me, maximizing, depth, cfg, moves, best, memo).0
            >= -score_limit(cfg),
        moves.len() > 0 || -score_limit(cfg) <= best <= score_limit(cfg) ==> -score_limit(cfg)
            <= search_moves(g, me, maximizing, depth, cfg, moves, best, memo).0 <= score_limit(
            cfg,
        ),
    decreases depth, 0nat, moves.len(),
{
    if moves.len() != 0 {
        let child = g.place(moves[0].0 as int, moves[0].1 as int);
        let valued = search(child, me, !maximizing, (depth - 1) as nat, cfg, memo);
        lemma_search_range(child, me, !maximizing, (depth - 1) as nat, cfg, memo);
        lemma_search_moves_range(
            g,
            me,
            maximizing,
            depth,
            cfg,
            moves.drop_first(),
            better(maximizing, best, valued.0),
            valued.1,
        );
    }
}

/// The scores of the moves open to `me` at the root, each being the value
/// of the position after the move with the other side to play, all valued
/// in order with one memo.
pub open spec fn root_scores(
    g: GameView,
    me: Player,
    cfg: SearchConfig,
    moves: Seq<Cell>,
    memo: Memo,
) -> Seq<i32>
    decreases moves.len(),
{
    if moves.len() == 0 {
        Seq::empty()
    } else {
        let child = g.place(moves[0].0 as int, moves[0].1 as int);
        let valued = search(child, me, false, cfg.depth as nat, cfg, memo);
        seq![valued.0] + root_scores(g, me, cfg, moves.drop_first(), valued.1)
    }
}

/// The largest of the scores, or the least score there is where there are
/// none.
pub open spec fn top_score(scores: Seq<i32>) -> i32
    decreases scores.len(),
{
    if scores.len() == 0 {
        i32::MIN
    } else if scores.last() > top_score(scores.drop_last()) {
        scores.last()
    } else {
        top_score(scores.drop_last())
    }
}

/// Those of the first `n` moves whose score is `bound`, in order.
pub open spec fn picks(moves: Seq<Cell>, scores: Seq<i32>, bound: i32, n: int) -> Seq<Cell>
    decreases n,
{
    if n <= 0 {
        Seq::empty()
    } else if scores[n - 1] == bound {
        picks(moves, scores, bound, n - 1).push(moves[n - 1])
    } else {
        picks(moves, scores, bound, n - 1)
    }
}

/// The moves among which the search lets chance decide: the empty cells
/// whose score is the largest at the root, in row-major order.
pub open spec fn candidates(g: GameView, me: Player, cfg: SearchConfig) -> Seq<Cell> {
    let moves = empties(g.board);
    let scores = root_scores(g, me, cfg, moves, Map::empty());
    picks(moves, scores, top_score(scores), moves.len() as int)
}

/// There is one score for each move at the root.
pub proof fn lemma_root_scores_len(
    g: GameView,
    me: Player,
    cfg: SearchConfig,
    moves: Seq<Cell>,
    memo: Memo,
)
    ensures
        root_scores(g, me, cfg, moves, memo).len() == moves.len(),
    decreases moves.len(),
{
    if moves.len() > 0 {
        let child = g.place(moves[0].0 as int, moves[0].1 as int);
        let valued = search(child, me, false, cfg.depth as nat, cfg, memo);
        lemma_root_scores_len(g, me, cfg, moves.drop_first(), valued.1);
    }
}

/// No score is above the top score, and where there is a score, one of
/// them is the top score.
pub proof fn lemma_top_score(scores: Seq<i32>)
    ensures
        forall|j: int| 0 <= j < scores.len() ==> #[trigger] scores[j] <= top_score(scores),
        scores.len() > 0 ==> exists|j: int|
            0 <= j < scores.len() && #[trigger] scores[j] == top_score(scores),
    decreases scores.len(),
{
    if scores.len() > 0 {
        let init = scores.drop_last();
        lemma_top_score(init);
        assert forall|j: int| 0 <= j < scores.len() implies #[trigger] scores[j] <= top_score(
            scores,
        ) by {
            if j < init.len() {
                assert(init[j] == scores[j]);
            }
        }
        if scores.last() > top_score(init) || init.len() == 0 {
            assert(scores[scores.len() - 1] == top_score(scores));
        } else {
            let j = choose|j: int| 0 <= j < init.len() && #[trigger] init[j] == top_score(init);
            assert(scores[j] == top_score(scores));
        }
    }
}

/// A cell is picked exactly where it is one of the first `n` moves and its
/// score is the bound.
pub proof fn lemma_picks(moves: Seq<Cell>, scores: Seq<i32>, bound: i32, n: int)
    requires
        0 <= n <= moves.len(),
        n <= scores.len(),
    ensures
        forall|m: Cell|
            picks(moves, scores, bound, n).contains(m) <==> exists|j: int|
                0 <= j < n && #[trigger] moves[j] == m && scores[j] == bound,
    decreases n,
{
    if n > 0 {
        lemma_picks(moves, scores, bound, n - 1);
        let prev = picks(moves, scores, bound, n - 1);
        let cur = picks(moves, scores, bound, n);
        assert forall|m: Cell| cur.contains(m) <==> exists|j: int|
            0 <= j < n && #[trigger] moves[j] == m && scores[j] == bound by {
            if cur.contains(m) {
                let i = choose|i: int| 0 <= i < cur.len() && cur[i] == m;
                if i < prev.len() {
                    assert(prev[i] == m);
                    assert(prev.contains(m));
                    let j = choose|j: int| 0 <= j < n - 1 && #[trigger] moves[j] == m && scores[j]
                        == bound;
                    assert(0 <= j < n && moves[j] == m && scores[j] == bound);
                } else {
                    assert(moves[n - 1] == m && scores[n - 1] == bound);
                }
            }
            if exists|j: int| 0 <= j < n && #[trigger] moves[j] == m && scores[j] == bound {
                let j = choose|j: int| 0 <= j < n && #[trigger] moves[j] == m && scores[j] == bound;
                if j < n - 1 {
                    assert(prev.contains(m));
                    let i = choose|i: int| 0 <= i < prev.len() && prev[i] == m;
                    assert(cur[i] == m);
                } else {
                    assert(cur[cur.len() - 1] == m);
                }
            }
        }
    }
}

/// The picks among the first `n` moves do not depend on later scores.
pub proof fn lemma_picks_prefix(moves: Seq<Cell>, a: Seq<i32>, b: Seq<i32>, bound: i32, n: int)
    requires
        0 <= n <= a.len(),
        n <= b.len(),
        forall|j: int| 0 <= j < n ==> a[j] == b[j],
    ensures
        picks(moves, a, bound, n) == picks(moves, b, bound, n),
    decreases n,
{
    if n > 0 {
        lemma_picks_prefix(moves, a, b, bound, n - 1);
    }
}

/// Nothing is picked for a bound above every score.
pub proof fn lemma_picks_none(moves: Seq<Cell>, scores: Seq<i32>, bound: i32, n: int)
    requires
        0 <= n <= scores.len(),
        forall|j: int| 0 <= j < n ==> scores[j] < bound,
    ensures
        picks(moves, scores, bound, n) == Seq::<Cell>::empty(),
    decreases n,
{
    if n > 0 {
        lemma_picks_none(moves, scores, bound, n - 1);
    }
}

/// The cell that `seed` selects among those that tie: the one at the place
/// that is left when the seed is divided by their number.
pub open spec fn tie_pick(best: Seq<Cell>, seed: usize) -> Option<Cell> {
    if best.len() == 0 {
        None
    } else {
        Some(best[(seed as int) % (best.len() as int)])
    }
}

/// Settles a tie by a seed.
pub fn pick_tie(best: &Vec<Cell>, seed: usize) -> (r: Option<Cell>)
    ensures
        r == tie_pick(best@, seed),
{
    if best.len() == 0 {
        None
    } else {
        Some(best[seed % best.len()])
    }
}

/// Over all seeds the cells selected are exactly the cells that tie.
pub proof fn lemma_seeds_reach_every_tie(best: Seq<Cell>)
    requires
        best.len() <= usize::MAX,
    ensures
        forall|m: Cell|
            best.contains(m) <==> exists|seed: usize| #[trigger] tie_pick(best, seed) == Some(m),
{
    assert forall|m: Cell| best.contains(m) implies exists|seed: usize| #[trigger]
        tie_pick(best, seed) == Some(m) by {
        let i = choose|i: int| 0 <= i < best.len() && best[i] == m;
        vstd::arithmetic::div_mod::lemma_small_mod(i as nat, best.len());
        assert(tie_pick(best, i as usize) == Some(m));
    }
    assert forall|m: Cell| (exists|seed: usize| #[trigger] tie_pick(best, seed) == Some(m))
        implies best.contains(m) by {
        let seed = choose|seed: usize| #[trigger] tie_pick(best, seed) == Some(m);
        let i = (seed as int) % (best.len() as int);
        assert(0 <= i < best.len());
        assert(best[i] == m);
    }
}

/// The candidates are exactly the empty cells whose score at the root is
/// the largest, and there is one wherever a cell is empty.
pub proof fn lemma_candidates(g: GameView, me: Player, cfg: SearchConfig)
    ensures
        ({
            let moves = empties(g.board);
            let scores = root_scores(g, me, cfg, moves, Map::empty());
            &&& scores.len() == moves.len()
            &&& forall|j: int| 0 <= j < scores.len() ==> #[trigger] scores[j] <= top_score(scores)
            &&& forall|m: Cell|
                candidates(g, me, cfg).contains(m) <==> exists|j: int|
                    0 <= j < moves.len() && #[trigger] moves[j] == m && scores[j] == top_score(
                        scores,
                    )
            &&& (candidates(g, me, cfg).len() == 0 <==> moves.len() == 0)
        }),
{
    let moves = empties(g.board);
    let scores = root_scores(g, me, cfg, moves, Map::empty());
    lemma_root_scores_len(g, me, cfg, moves, Map::empty());
    lemma_top_score(scores);
    lemma_picks(moves, scores, top_score(scores), moves.len() as int);
    if moves.len() > 0 {
        let j = choose|j: int| 0 <= j < scores.len() && #[trigger] scores[j] == top_score(scores);
        assert(moves[j] == moves[j] && scores[j] == top_score(scores));
        assert(candidates(g, me, cfg).contains(moves[j]));
    } else {
        assert(candidates(g, me, cfg) =~= Seq::<Cell>::empty());
    }
}

/// Every candidate is an empty cell of the grid.
pub proof fn lemma_candidates_legal(g: GameView, me: Player, cfg: SearchConfig, m: Cell)
    requires
        candidates(g, me, cfg).contains(m),
    ensures
        empties(g.board).contains(m),
        free_at(g.board, m),
{
    lemma_candidates(g, me, cfg);
    lemma_empties(g.board);
    let moves = empties(g.board);
    let scores = root_scores(g, me, cfg, moves, Map::empty());
    let j = choose|j: int|
        0 <= j < moves.len() && #[trigger] moves[j] == m && scores[j] == top_score(scores);
    assert(moves[j] == m);
}

} // verus!
