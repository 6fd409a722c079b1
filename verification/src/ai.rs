//! The computer opponent: its tiers, the settings of its search, and the
//! moves it makes.

pub mod scoring;
pub mod search;

use crate::ai::scoring::{
    block_move, evaluation, evaluation_below, first_threat_from, free_at, lemma_block_move,
    must_block, survey,
};
use crate::ai::search::{
    candidates, lemma_candidates_legal, lemma_picks, lemma_picks_none, lemma_picks_prefix,
    lemma_root_scores_len, lemma_top_score, pick_tie, picks, root_scores, search, search_moves,
    tie_pick, top_score,
};
use crate::chance::choose_cell;
use crate::game::state::{GameState, GameView};
use crate::grid::{board_key, empties, lemma_empties, line_coords, win_patterns, Cell, Player};
use std::collections::HashMap;
use vstd::prelude::*;

verus! {

/// How strongly the computer plays.
#[derive(Clone, Copy, Debug, PartialEq, Eq, Hash, Structural)]
pub enum Difficulty {
    Easy,
    Medium,
    Hard,
}

/// The tier that a name stands for: "easy", "medium" or "hard", in lower
/// case; any other name stands for none.
pub open spec fn level_of(name: Seq<char>) -> Option<Difficulty> {
    if name == "easy"@ {
        Some(Difficulty::Easy)
    } else if name == "medium"@ {
        Some(Difficulty::Medium)
    } else if name == "hard"@ {
        Some(Difficulty::Hard)
    } else {
        None
    }
}

impl Difficulty {
    /// The tier that a name stands for.
    pub fn from_level(name: &str) -> (r: Option<Difficulty>)
        ensures
            r == level_of(name@),
    {
        let given = name.to_owned();
        if given == "easy".to_owned() {
            Some(Difficulty::Easy)
        } else if given == "medium".to_owned() {
            Some(Difficulty::Medium)
        } else if given == "hard".to_owned() {
            Some(Difficulty::Hard)
        } else {
            None
        }
    }
}

/// The largest weight that a search may be given.
pub const WEIGHT_LIMIT: i32 = 1_000_000;

/// What a search is tuned by: how many moves deep it looks, what a won game
/// is worth, and what the count of lines gives for a full line and for two
/// pieces on a line that the other side has not touched.
#[derive(Clone, Copy, Debug, PartialEq, Eq, Structural)]
pub struct SearchConfig {
    pub depth: usize,
    pub win_score: i32,
    pub line_score: i32,
    pub threat_score: i32,
}

impl SearchConfig {
    /// Each weight lies between 0 and the limit.
    pub open spec fn valid(self) -> bool {
        &&& 0 <= self.win_score <= WEIGHT_LIMIT
        &&& 0 <= self.line_score <= WEIGHT_LIMIT
        &&& 0 <= self.threat_score <= WEIGHT_LIMIT
    }

    /// The settings that a tier searches with. `Easy` does not search and
    /// has none.
    pub open spec fn tier(difficulty: Difficulty) -> Option<SearchConfig> {
        match difficulty {
            Difficulty::Easy => None,
            Difficulty::Medium => Some(
                SearchConfig { depth: 3, win_score: 1, line_score: 100, threat_score: 10 },
            ),
            Difficulty::Hard => Some(
                SearchConfig { depth: 6, win_score: 1000, line_score: 100, threat_score: 10 },
            ),
        }
    }

    /// Settings with the given values, or nothing where a weight is
    /// negative or above the limit.
    pub fn new(depth: usize, win_score: i32, line_score: i32, threat_score: i32) -> (r: Option<
        SearchConfig,
    >)
        ensures
            r is Some <==> (SearchConfig { depth, win_score, line_score, threat_score }).valid(),
            r is Some ==> r->0 == (SearchConfig { depth, win_score, line_score, threat_score }),
    {
        if 0 <= win_score && win_score <= WEIGHT_LIMIT && 0 <= line_score && line_score
            <= WEIGHT_LIMIT && 0 <= threat_score && threat_score <= WEIGHT_LIMIT {
            Some(SearchConfig { depth, win_score, line_score, threat_score })
        } else {
            None
        }
    }

    /// The settings that a tier searches with.
    pub fn for_tier(difficulty: Difficulty) -> (r: Option<SearchConfig>)
        ensures
            r == SearchConfig::tier(difficulty),
            r is Some ==> r->0.valid(),
    {
        match difficulty {
            Difficulty::Easy => None,
            Difficulty::Medium => Some(
                SearchConfig { depth: 3, win_score: 1, line_score: 100, threat_score: 10 },
            ),
            Difficulty::Hard => Some(
                SearchConfig { depth: 6, win_score: 1000, line_score: 100, threat_score: 10 },
            ),
        }
    }
}

/// The computer opponent: a tier, and the settings that its search uses.
#[derive(Clone, Copy, Debug)]
pub struct AiPlayer {
    pub difficulty: Difficulty,
    pub config: SearchConfig,
}

impl AiPlayer {
    /// The settings are in range.
    pub open spec fn wf(self) -> bool {
        self.config.valid()
    }

    /// `m` is a move that this opponent may make in `g`: under the opening
    /// rule the blocking cell and no other; else for `Easy` any empty cell,
    /// and for `Medium` and `Hard` any cell that the search rates highest.
    pub open spec fn allows(self, g: GameView, m: Cell) -> bool {
        if must_block(g) {
            block_move(g.board, g.current_player) == Some(m)
        } else {
            match self.difficulty {
                Difficulty::Easy => empties(g.board).contains(m),
                _ => candidates(g, g.current_player, self.config).contains(m),
            }
        }
    }

    /// The opponent of a tier with the tier's own settings. `Easy`, which
    /// never searches, carries those of `Medium`.
    pub open spec fn of_tier(difficulty: Difficulty) -> AiPlayer {
        AiPlayer {
            difficulty,
            config: match SearchConfig::tier(difficulty) {
                Some(c) => c,
                None => SearchConfig::tier(Difficulty::Medium)->0,
            },
        }
    }

    /// An opponent of the given tier with the tier's own settings.
    pub fn new(difficulty: Difficulty) -> (ai: Self)
        ensures
            ai == AiPlayer::of_tier(difficulty),
            ai.wf(),
    {
        let config = match SearchConfig::for_tier(difficulty) {
            Some(c) => c,
            None => SearchConfig { depth: 3, win_score: 1, line_score: 100, threat_score: 10 },
        };
        AiPlayer { difficulty, config }
    }

    /// An opponent of the given tier with settings of the caller's choice,
    /// or nothing where a weight is out of range.
    pub fn with_config(difficulty: Difficulty, config: SearchConfig) -> (r: Option<Self>)
        ensures
            r is Some <==> config.valid(),
            r is Some ==> r->0.difficulty == difficulty && r->0.config == config,
    {
        match SearchConfig::new(
            config.depth,
            config.win_score,
            config.line_score,
            config.threat_score,
        ) {
            Some(c) => Some(AiPlayer { difficulty, config: c }),
            None => None,
        }
    }

    /// The score of the grid for `me` by the count of lines.
    pub fn evaluate_position(&self, game_state: &GameState, me: Player) -> (score: i32)
        requires
            self.wf(),
        ensures
            score == evaluation(game_state@.board, me, self.config),
    {
        let patterns = win_patterns();
        let mut score: i32 = 0;
        let mut k: usize = 0;
        while k < 8
            invariant
                0 <= k <= 8,
                self.wf(),
                forall|n: int| 0 <= n < 8 ==> (#[trigger] patterns[n])@ == line_coords(n),
                score == evaluation_below(game_state.board, k as int, me, self.config),
                -k * WEIGHT_LIMIT <= score <= k * WEIGHT_LIMIT,
            decreases 8 - k,
        {
            assert(patterns[k as int]@ == line_coords(k as int));
            let (mine, theirs, _) = survey(&game_state.board, &patterns[k], Ghost(k as int), me);
            if mine == 3 {
                score += self.config.line_score;
            } else if mine == 2 && theirs == 0 {
                score += self.config.threat_score;
            } else if theirs == 3 {
                score -= self.config.line_score;
            } else if theirs == 2 && mine == 0 {
                score -= self.config.threat_score;
            }
            k += 1;
        }
        score
    }

    /// The cell that `me` must take to stop the other side from completing
    /// a line: the empty cell of the first line, in scan order, on which the
    /// other side holds two cells and `me` none.
    pub fn find_block_move(&self, game_state: &GameState, me: Player) -> (r: Option<Cell>)
        ensures
            r == block_move(game_state@.board, me),
    {
        let patterns = win_patterns();
        let mut k: usize = 0;
        while k < 8
            invariant
                0 <= k <= 8,
                forall|n: int| 0 <= n < 8 ==> (#[trigger] patterns[n])@ == line_coords(n),
                first_threat_from(game_state.board, 0, me) == first_threat_from(
                    game_state.board,
                    k as int,
                    me,
                ),
            decreases 8 - k,
        {
            assert(patterns[k as int]@ == line_coords(k as int));
            let (mine, theirs, empty) = survey(
                &game_state.board,
                &patterns[k],
                Ghost(k as int),
                me,
            );
            if theirs == 2 && mine == 0 {
                return empty;
            }
            k += 1;
        }
        None
    }

    /// The move that the opening rule demands for the side to move, or
    /// nothing where the rule does not apply: six or more pieces are in the
    /// two histories, or no line is threatened.
    pub fn opening_block(&self, game_state: &GameState) -> (r: Option<Cell>)
        ensures
            r == (if must_block(game_state@) {
                block_move(game_state@.board, game_state@.current_player)
            } else {
                None
            }),
    {
        if game_state.moves_x.len() < 6 && game_state.moves_o.len() < 6
            - game_state.moves_x.len() {
            self.find_block_move(game_state, game_state.current_player)
        } else {
            None
        }
    }

    /// A cell drawn by chance among the empty ones, or nothing where none
    /// is empty.
    pub fn random_move(&self, game_state: &GameState) -> (r: Option<Cell>)
        ensures
            r is None <==> empties(game_state@.board).len() == 0,
            r is Some ==> empties(game_state@.board).contains(r->0),
    {
        let moves = game_state.available_moves();
        choose_cell(&moves)
    }

    /// The value of a position for `me`, looking `depth` moves ahead, with
    /// the positions that this search has valued before in `memo`, which
    /// takes up those valued now.
    pub fn minimax(
        &self,
        game_state: &GameState,
        me: Player,
        is_maximizing: bool,
        depth: usize,
        memo: &mut HashMap<u64, i32>,
    ) -> (score: i32)
        requires
            self.wf(),
            game_state@.playable(),
        ensures
            (score, final(memo)@) == search(
                game_state@,
                me,
                is_maximizing,
                depth as nat,
                self.config,
                old(memo)@,
            ),
        decreases depth,
    {
        broadcast use vstd::std_specs::hash::group_hash_axioms;

        let board_key = board_key(&game_state.board, is_maximizing);
        if let Some(score) = memo.get(&board_key) {
            return *score;
        }
        if let Some(winner) = game_state.winner {
            let score = if winner == me {
                self.config.win_score
            } else {
                -self.config.win_score
            };
            memo.insert(board_key, score);
            return score;
        }
        let moves = game_state.available_moves();
        if moves.len() == 0 {
            return 0;
        }
        if depth == 0 {
            return self.evaluate_position(game_state, me);
        }
        let start = if is_maximizing {
            i32::MIN
        } else {
            i32::MAX
        };
        let mut best_score = start;
        let ghost before = memo@;
        let mut i: usize = 0;
        proof {
            lemma_empties(game_state.board);
            assert(moves@.subrange(0, moves@.len() as int) =~= moves@);
        }
        while i < moves.len()
            invariant
                0 <= i <= moves.len(),
                depth > 0,
                self.wf(),
                game_state@.playable(),
                forall|j: int| 0 <= j < moves@.len() ==> (#[trigger] moves@[j]).0 < 3 && moves@[j].1 < 3,
                search_moves(
                    game_state@,
                    me,
                    is_maximizing,
                    depth as nat,
                    self.config,
                    moves@.subrange(i as int, moves@.len() as int),
                    best_score,
                    memo@,
                ) == search_moves(
                    game_state@,
                    me,
                    is_maximizing,
                    depth as nat,
                    self.config,
                    moves@,
                    start,
                    before,
                ),
            decreases moves.len() - i,
        {
            let (x, y) = moves[i];
            let mut simulated_state = game_state.clone();
            simulated_state.place_piece(x, y);
            let ghost rest = moves@.subrange(i as int, moves@.len() as int);
            proof {
                assert(rest[0] == moves@[i as int]);
                assert(rest.drop_first() =~= moves@.subrange(i + 1, moves@.len() as int));
            }
            let score = self.minimax(&simulated_state, me, !is_maximizing, depth - 1, memo);
            best_score = if is_maximizing {
                if score > best_score {
                    score
                } else {
                    best_score
                }
            } else {
                if score < best_score {
                    score
                } else {
                    best_score
                }
            };
            i += 1;
        }
        memo.insert(board_key, best_score);
        best_score
    }

    /// The moves that the search rates highest for the side to move: every
    /// empty cell is valued with one fresh memo, in row-major order, and
    /// those with the largest value are returned in that order.
    pub fn best_moves(&self, game_state: &GameState) -> (best: Vec<Cell>)
        requires
            self.wf(),
            game_state@.playable(),
        ensures
            best@ == candidates(game_state@, game_state@.current_player, self.config),
            best@.len() == 0 <==> empties(game_state@.board).len() == 0,
    {
        let me = game_state.current_player;
        let mut best_score: i32 = i32::MIN;
        let mut best_moves: Vec<Cell> = Vec::new();
        let mut memo: HashMap<u64, i32> = HashMap::new();
        let moves = game_state.available_moves();
        let ghost all = root_scores(game_state@, me, self.config, moves@, Map::empty());
        let ghost seen: Seq<i32> = Seq::empty();
        let mut i: usize = 0;
        proof {
            lemma_empties(game_state.board);
            lemma_root_scores_len(game_state@, me, self.config, moves@, Map::empty());
            assert(moves@.subrange(0, moves@.len() as int) =~= moves@);
            assert(seen + all =~= all);
        }
        while i < moves.len()
            invariant
                0 <= i <= moves.len(),
                self.wf(),
                game_state@.playable(),
                me == game_state@.current_player,
                forall|j: int| 0 <= j < moves@.len() ==> (#[trigger] moves@[j]).0 < 3 && moves@[j].1 < 3,
                seen.len() == i,
                all.len() == moves@.len(),
                all == seen + root_scores(
                    game_state@,
                    me,
                    self.config,
                    moves@.subrange(i as int, moves@.len() as int),
                    memo@,
                ),
                best_score == top_score(seen),
                best_moves@ == picks(moves@, seen, best_score, i as int),
            decreases moves.len() - i,
        {
            let (x, y) = moves[i];
            let mut simulated_state = game_state.clone();
            simulated_state.place_piece(x, y);
            let ghost rest = moves@.subrange(i as int, moves@.len() as int);
            let ghost memo_before = memo@;
            proof {
                assert(rest[0] == moves@[i as int]);
                assert(rest.drop_first() =~= moves@.subrange(i + 1, moves@.len() as int));
            }
            let score = self.minimax(&simulated_state, me, false, self.config.depth, &mut memo);
            proof {
                let tail = root_scores(game_state@, me, self.config, rest.drop_first(), memo@);
                assert(root_scores(game_state@, me, self.config, rest, memo_before) == seq![score]
                    + tail);
                let next = seen.push(score);
                assert(next + tail =~= seen + (seq![score] + tail));
                assert(next.drop_last() =~= seen);
                assert(next.last() == score);
                lemma_top_score(seen);
                lemma_picks_prefix(moves@, seen, next, best_score, i as int);
                if score > best_score {
                    lemma_picks_none(moves@, next, score, i as int);
                }
                seen = next;
            }
            if score > best_score {
                best_score = score;
                best_moves = Vec::new();
                best_moves.push((x, y));
            } else if score == best_score {
                best_moves.push((x, y));
            }
            i += 1;
        }
        proof {
            assert(moves@.subrange(moves@.len() as int, moves@.len() as int) =~= Seq::<
                Cell,
            >::empty());
            assert(all =~= seen);
            lemma_top_score(all);
            lemma_picks(moves@, all, best_score, moves@.len() as int);
            if moves@.len() > 0 {
                let j = choose|j: int| 0 <= j < all.len() && #[trigger] all[j] == top_score(all);
                assert(moves@[j] == moves@[j] && all[j] == best_score);
                assert(best_moves@.contains(moves@[j]));
            }
        }
        best_moves
    }

    /// A move that the search rates highest for the side to move, drawn by
    /// chance among those that tie, or nothing where no cell is empty.
    pub fn minimax_move(&self, game_state: &GameState) -> (r: Option<Cell>)
        requires
            self.wf(),
            game_state@.playable(),
        ensures
            r is None <==> empties(game_state@.board).len() == 0,
            r is Some ==> candidates(
                game_state@,
                game_state@.current_player,
                self.config,
            ).contains(r->0),
    {
        let best_moves = self.best_moves(game_state);
        choose_cell(&best_moves)
    }

    /// The move that the search rates highest for the side to move, with
    /// ties settled by `seed`: the same game, settings and seed give the
    /// same move.
    pub fn seeded_move(&self, game_state: &GameState, seed: usize) -> (r: Option<Cell>)
        requires
            self.wf(),
            game_state@.playable(),
        ensures
            r == tie_pick(
                candidates(game_state@, game_state@.current_player, self.config),
                seed,
            ),
    {
        let best_moves = self.best_moves(game_state);
        pick_tie(&best_moves, seed)
    }

    /// The computer's move for the side whose turn it is. While fewer than
    /// six pieces stand on the grid and the other side threatens a line,
    /// the move is the cell that blocks the first such line. Otherwise
    /// `Easy` draws an empty cell by chance, and `Medium` and `Hard` search.
    /// There is no move only where no cell is empty.
    pub fn make_move(&self, game_state: &GameState) -> (r: Option<Cell>)
        requires
            self.wf(),
            game_state@.playable(),
        ensures
            r is None <==> empties(game_state@.board).len() == 0,
            r is Some ==> self.allows(game_state@, r->0),
            r is Some ==> free_at(game_state@.board, r->0),
    {
        let me = game_state.current_player;
        proof {
            lemma_block_move(game_state.board, me);
            lemma_empties(game_state.board);
        }
        if let Some(block_move) = self.opening_block(game_state) {
            return Some(block_move);
        }
        let r = match self.difficulty {
            Difficulty::Easy => self.random_move(game_state),
            Difficulty::Medium | Difficulty::Hard => {
                let r = self.minimax_move(game_state);
                proof {
                    if r is Some {
                        lemma_candidates_legal(game_state@, me, self.config, r->0);
                    }
                }
                r
            },
        };
        r
    }
}

} // verus!
