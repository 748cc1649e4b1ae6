//! The search: iterative deepening over an alpha-beta search with a
//! transposition table, killer moves and a history table, and a quiescence
//! search of the captures at its leaves.

use std::time::{Duration, Instant};
use vstd::prelude::*;
use vstd::string::StringExecFns;
use crate::board::Board;
use crate::constants::{is_checkmate, mate_score, ply_from_mate, CHECKMATE};
use crate::draw::{keeps_clock, lemma_clock_runs_out, piece_count, FIFTY_MOVE_PLIES};
use crate::move_data::{null_move, MoveData};
use crate::move_list::MoveList;
use crate::movegen::{lemma_capture_count, ALL_MOVES, CAPTURES_ONLY};
use crate::pieces;
use crate::position::{lemma_undo_make, BoardView};
use crate::quiescence::{
    best_over,
    firsts,
    lemma_best_over_prefix,
    lemma_quiet_value,
    standard,
    within,
};
pub use crate::search_value::MAX_PLY;
use crate::search_value::{
    agrees,
    answers_for,
    best_reply,
    extended,
    lemma_answers_for,
    lemma_best_reply,
    lemma_best_reply_prefix,
    lemma_best_reply_same,
    lemma_capture_value_range,
    lemma_narrowed_window,
    lemma_node_value_of_moves,
    lemma_node_value_quiet,
    lemma_node_value_range,
    lemma_search_step,
    lemma_within_negated,
    node_value,
    reply_worth,
    terminal_score,
};
use crate::transposition_table::{EvalBound, TranspositionTable, TTEntry, MEGABYTE};

verus! {

/// The depth to which a search goes if none is asked for.
pub const MAX_DEPTH: u8 = 100;

/// The number of plies from the root for which killer moves are kept.
pub const MAX_KILLER_MOVE_PLY: u8 = 30;

/// The number of killer moves kept for each ply.
pub const KILLER_MOVES_PER_PLY: usize = 2;

/// The number of nodes after which the clock is read again.
pub const NODES_PER_POLL: u128 = 20_000;

/// The score of the move that was best at the root in the last iteration.
pub const ROOT_MOVE_SCORE: i16 = i16::MAX;

/// The score of the move that the transposition table suggests.
pub const TABLE_MOVE_SCORE: i16 = i16::MAX - 1;

/// What the score of a capture starts from.
pub const CAPTURE_SCORE: i16 = 20_000;

/// What a killer move gets on top of its history.
pub const KILLER_SCORE: i16 = 10_000;

/// Whether the search keeps a record of its iterations for the protocol.
#[derive(Copy, Clone, Debug, PartialEq, Eq, Structural)]
pub enum BotOutput {
    Quiet,
    Uci,
}

/// The worth of a capture by attacker (row) and victim (column): the more
/// valuable the victim and the less valuable the attacker, the higher.
pub const MVV_LVA: [i16; 36] = [
    15, 25, 35, 45, 55, 65,
    14, 24, 34, 44, 54, 64,
    13, 23, 33, 43, 53, 63,
    12, 22, 32, 42, 52, 62,
    11, 21, 31, 41, 51, 61,
    10, 20, 30, 40, 50, 60,
];

/// The last two quiet moves that refuted a line at one distance from the
/// root, the newer first.
#[derive(Copy, Clone, Debug)]
pub struct KillerMoves {
    pub moves: [MoveData; 2],
}

impl KillerMoves {
    /// No killer moves: both places hold the null move.
    pub fn empty() -> (killers: Self)
        ensures
            killers.moves[0] == null_move(),
            killers.moves[1] == null_move(),
    {
        Self { moves: [MoveData::null(), MoveData::null()] }
    }

    /// Whether a move is one of the two.
    pub open spec fn holds(&self, m: MoveData) -> bool {
        self.moves[0] == m || self.moves[1] == m
    }

    /// Puts a move in front and drops the older of the two, unless the move
    /// is one of them already.
    pub fn add(&mut self, new_move: MoveData)
        ensures
            killer_added(*old(self), *final(self), new_move),
    {
        if self.is_killer(&new_move) {
            return;
        }
        let first = self.moves[0];
        self.moves[1] = first;
        self.moves[0] = new_move;
    }

    /// Whether a move is one of the two.
    pub fn is_killer(&self, new_move: &MoveData) -> (killer: bool)
        ensures
            killer == self.holds(*new_move),
    {
        self.moves[0] == *new_move || self.moves[1] == *new_move
    }
}

/// What the search found in one iteration.
#[derive(Clone, Debug)]
pub struct SearchInfo {
    pub depth: u8,
    pub seldepth: u8,
    /// Whether `score` counts moves to mate; it counts centipawns if not.
    pub mate: bool,
    pub score: i16,
    /// The evaluation that the iteration found, for the side to move.
    pub eval: i16,
    pub best_move: MoveData,
    /// The principal variation: moves in coordinates, a space after each.
    pub pv: String,
    pub nodes: u128,
    pub time_ms: u128,
}

/// Whether the killer moves of the first `plies` plies are the earlier ones
/// and no history is less than the earlier one.
#[verifier::opaque]
pub open spec fn memory_grown(
    history: [[[i16; 64]; 64]; 2],
    killers: [KillerMoves; 30],
    earlier_history: [[[i16; 64]; 64]; 2],
    earlier_killers: [KillerMoves; 30],
    plies: int,
) -> bool {
    &&& forall|p: int| 0 <= p < plies && p < 30 ==> #[trigger] killers[p] == earlier_killers[p]
    &&& forall|s: int, f: int, t: int|
        0 <= s < 2 && 0 <= f < 64 && 0 <= t < 64 ==> #[trigger] history[s][f][t]
            >= earlier_history[s][f][t]
}

/// Whether `after` holds the killer moves `before` with a move added: the
/// move in front of the newer of the two, unless it was one of them already.
pub open spec fn killer_added(before: KillerMoves, after: KillerMoves, m: MoveData) -> bool {
    if before.holds(m) {
        after == before
    } else {
        after.moves[0] == m && after.moves[1] == before.moves[0]
    }
}

/// Whether every legal move of a position leads to a drawn position.
pub open spec fn only_draws(v: BoardView) -> bool {
    forall|i: int|
        0 <= i < v.moves(false).len() && v.legal(#[trigger] v.moves(false)[i]) ==> v.made(
            v.moves(false)[i],
        ).is_draw()
}

/// Once the clock stands at 99 plies or more, a position none of whose legal
/// moves takes anything or moves a pawn has only moves that lead to drawn
/// positions: the search gives it the evaluation 0.
pub proof fn lemma_only_draws_by_the_clock(v: BoardView)
    requires
        v.state().halfmove_clock >= FIFTY_MOVE_PLIES - 1,
        forall|i: int|
            0 <= i < v.moves(false).len() && v.legal(#[trigger] v.moves(false)[i]) ==> keeps_clock(
                v,
                v.moves(false)[i],
            ),
    ensures
        only_draws(v),
{
    assert forall|i: int|
        0 <= i < v.moves(false).len() && v.legal(#[trigger] v.moves(false)[i]) implies v.made(
        v.moves(false)[i],
    ).is_draw() by {
        lemma_clock_runs_out(v, v.moves(false)[i]);
    }
}

/// What the moves of a position are worth, `ply` plies from the root, when
/// the positions after them are searched to `depth`: the score of a mate or
/// stalemate if none is legal, else the best that a legal move leads to.
pub open spec fn moves_value(v: BoardView, depth: nat, ply: nat) -> int {
    if v.has_no_legal_move() {
        terminal_score(v.in_check(), ply as int)
    } else {
        best_reply(v, v.moves(false), v.moves(false).len(), depth, ply)
    }
}

/// What a report shows as the score of an evaluation: for a mate score the
/// number of moves to the mate, half the plies rounded up, with the sign of
/// the side to move; for any other evaluation the evaluation itself.
pub open spec fn shown_score(eval: i16, white_to_move: bool) -> int {
    if mate_score(eval) {
        (crate::constants::mate_distance(eval) + 1) / 2 * if white_to_move { 1int } else { -1int }
    } else {
        eval as int
    }
}

/// Whether an iteration to a depth reports an evaluation: any evaluation
/// that is no mate score, and a mate score whose mate lies within the depth.
pub open spec fn reportable(eval: i16, depth: u8) -> bool {
    mate_score(eval) ==> -CHECKMATE <= eval <= CHECKMATE && crate::constants::mate_distance(eval)
        <= depth
}

/// Whether a report says of its evaluation what a report is to say: whether
/// it is a mate score, and the score that stands for it.
pub open spec fn report_ok(report: SearchInfo, white_to_move: bool) -> bool {
    &&& reportable(report.eval, report.depth)
    &&& report.mate == mate_score(report.eval)
    &&& report.score == shown_score(report.eval, white_to_move)
}

/// `std::time::Instant`, a reading of the clock. Nothing of what it holds is
/// known here.
#[verifier::external_type_specification]
#[verifier::external_body]
pub struct ExInstant(Instant);

/// Reads the clock with `std::time::Instant::now`. Nothing is claimed of the
/// instant.
#[verifier::external_body]
fn timer_start() -> (timer: Instant) {
    Instant::now()
}

/// The time since an instant, from `std::time::Instant::elapsed`. Nothing is
/// claimed of it.
#[verifier::external_body]
fn timer_elapsed(timer: &Instant) -> (elapsed: Duration) {
    timer.elapsed()
}

/// A duration in whole milliseconds, from `std::time::Duration::as_millis`.
/// Nothing is claimed of the number.
#[verifier::external_body]
fn duration_millis(duration: &Duration) -> (millis: u128) {
    duration.as_millis()
}

/// The score of a position in which the side to move has no legal move.
pub fn terminal_eval(in_check: bool, ply: u8) -> (eval: i16)
    ensures
        eval == terminal_score(in_check, ply as int),
        -CHECKMATE <= eval <= 0,
{
    if in_check {
        -(CHECKMATE - ply as i16)
    } else {
        0
    }
}

/// The window of a node `ply` plies from the root, cut down to the scores
/// that a mate from there on can still reach: no worse than being mated now,
/// no better than mating with the next move.
pub open spec fn mate_window(alpha: i16, beta: i16, ply: u8) -> (i16, i16) {
    (
        if alpha < -(CHECKMATE - ply) {
            (-(CHECKMATE - ply)) as i16
        } else {
            alpha
        },
        if beta > CHECKMATE - ply - 1 {
            (CHECKMATE - ply - 1) as i16
        } else {
            beta
        },
    )
}

/// The window of a node cut down by the distance to mate.
pub fn mate_distance_window(alpha: i16, beta: i16, ply: u8) -> (window: (i16, i16))
    ensures
        window == mate_window(alpha, beta, ply),
        window.0 >= alpha,
        window.1 <= beta,
        window.0 >= -CHECKMATE,
        window.1 < CHECKMATE,
{
    let mate_value = CHECKMATE - ply as i16;
    let low = if alpha < -mate_value { -mate_value } else { alpha };
    let high = if beta > mate_value - 1 { mate_value - 1 } else { beta };
    (low, high)
}

/// The number of moves to the mate that a mate score stands for, with the
/// sign of the side to move: half the plies, rounded up.
pub fn mate_in_moves(eval: i16, perspective: i16) -> (moves: i16)
    requires
        mate_score(eval),
        -CHECKMATE <= eval <= CHECKMATE,
        perspective == 1 || perspective == -1,
    ensures
        moves == (crate::constants::mate_distance(eval) + 1) / 2 * perspective,
{
    let ply = ply_from_mate(eval);
    (ply + 1) / 2 * perspective
}

/// The sum of two scores, kept within the range of a score.
pub open spec fn capped_sum(a: int, b: int) -> i16 {
    if a + b > i16::MAX {
        i16::MAX
    } else if a + b < -i16::MAX {
        (-i16::MAX) as i16
    } else {
        (a + b) as i16
    }
}

/// The score by which a move is ordered: the highest for the move that was
/// best at the root, the next for the move of the transposition table; for a
/// capture `CAPTURE_SCORE` and the worth of the capture by attacker and
/// victim; for a quiet move its history, and `KILLER_SCORE` on top if it is a
/// killer move.
pub open spec fn move_score(
    m: MoveData,
    root_move: MoveData,
    table_move: MoveData,
    capture: u8,
    history: i16,
    killer: bool,
) -> i16 {
    if m == root_move {
        ROOT_MOVE_SCORE
    } else if m == table_move {
        TABLE_MOVE_SCORE
    } else if capture != pieces::NONE {
        (CAPTURE_SCORE + MVV_LVA[pieces::type_of(m.piece) * 6 + pieces::type_of(capture)]) as i16
    } else {
        capped_sum(history as int, if killer { KILLER_SCORE as int } else { 0 })
    }
}

/// The score by which a move is ordered.
pub fn score_move(
    m: &MoveData,
    root_move: &MoveData,
    table_move: &MoveData,
    capture: u8,
    history: i16,
    killer: bool,
) -> (score: i16)
    ensures
        score == move_score(*m, *root_move, *table_move, capture, history, killer),
{
    if *m == *root_move {
        ROOT_MOVE_SCORE
    } else if *m == *table_move {
        TABLE_MOVE_SCORE
    } else if capture != pieces::NONE {
        let index = (pieces::get_type(m.piece) * 6 + pieces::get_type(capture)) as usize;
        CAPTURE_SCORE + MVV_LVA[index]
    } else {
        let sum: i32 = history as i32 + if killer { KILLER_SCORE as i32 } else { 0 };
        if sum > i16::MAX as i32 {
            i16::MAX
        } else if sum < -(i16::MAX as i32) {
            -i16::MAX
        } else {
            sum as i16
        }
    }
}

/// The history of a quiet move after it refuted a line at the given depth:
/// the square of the depth is added to it.
pub fn bumped_history(history: i16, depth: u8) -> (bumped: i16)
    ensures
        bumped == capped_sum(history as int, depth * depth),
{
    let side: i32 = depth as i32;
    assert(0 <= side * side <= 255 * 255) by (nonlinear_arith)
        requires
            0 <= side <= 255,
    ;
    let sum: i32 = history as i32 + side * side;
    if sum > i16::MAX as i32 {
        i16::MAX
    } else if sum < -(i16::MAX as i32) {
        -i16::MAX
    } else {
        sum as i16
    }
}

/// The engine: a position, a transposition table, and what a search keeps
/// while it runs.
pub struct Bot {
    pub board: Board,
    pub transposition_table: TranspositionTable,
    /// For each side, origin and destination: how often, weighted by depth, a
    /// quiet move refuted a line.
    pub history: [[[i16; 64]; 64]; 2],
    pub killer_moves: [KillerMoves; 30],
    pub nodes: u128,
    pub q_nodes: u128,
    pub best_move: MoveData,
    pub best_eval: i16,
    pub best_move_this_iteration: MoveData,
    pub best_eval_this_iteration: i16,
    pub seldepth: u8,
    pub timer: Instant,
    /// The time that a search may take, in milliseconds.
    pub movetime: Option<u64>,
    pub output: BotOutput,
    pub search_cancelled: bool,
    pub searched_one_move: bool,
    /// What the iterations of the last search found, in their order.
    pub reports: Vec<SearchInfo>,
}

/// Whether the time of a search is spent.
pub fn time_is_up(elapsed_ms: u128, movetime: u64) -> (up: bool)
    ensures
        up == (elapsed_ms >= movetime),
{
    elapsed_ms >= movetime as u128
}

impl Bot {
    /// The board and the transposition table are well formed, and the
    /// evaluations in the table are evaluations that a search can take over.
    pub open spec fn wf(&self) -> bool {
        self.board.wf() && self.transposition_table.wf() && self.transposition_table.sane()
    }

    /// Whether the search looks at the clock at this node: it has a time
    /// limit, and the count of nodes is a multiple of `NODES_PER_POLL`.
    pub open spec fn polls_clock(&self) -> bool {
        self.movetime is Some && self.nodes % NODES_PER_POLL == 0
    }

    /// An engine on the position of a text, with a transposition table of the
    /// given size in megabytes.
    pub fn new(fen: &str, tt_mbs: usize) -> (bot: Self)
        requires
            tt_mbs * MEGABYTE <= usize::MAX,
        ensures
            bot.board.sound(),
            bot.board@ == crate::fen::fen_position(fen@),
            bot.transposition_table.wf(),
            bot.transposition_table.sane(),
            bot.transposition_table.mbs == tt_mbs,
            bot.transposition_table.entries == 0,
            bot.transposition_table@.len() == crate::transposition_table::slots_for(tt_mbs),
            forall|i: int|
                0 <= i < bot.transposition_table@.len() ==> bot.transposition_table@[i] is None,
            forall|side: int, from: int, to: int|
                0 <= side < 2 && 0 <= from < 64 && 0 <= to < 64
                    ==> #[trigger] bot.history[side][from][to] == 0,
            forall|ply: int|
                0 <= ply < 30 ==> (#[trigger] bot.killer_moves[ply]).moves[0] == null_move()
                    && bot.killer_moves[ply].moves[1] == null_move(),
            bot.nodes == 0,
            bot.q_nodes == 0,
            bot.seldepth == 0,
            bot.best_move == null_move(),
            bot.best_eval == 0,
            bot.movetime is None,
            bot.output == BotOutput::Uci,
            !bot.search_cancelled,
            bot.reports@.len() == 0,
    {
        Self {
            board: Board::new(fen),
            transposition_table: TranspositionTable::new(tt_mbs),
            history: [[[0; 64]; 64]; 2],
            killer_moves: [KillerMoves::empty(); 30],
            nodes: 0,
            q_nodes: 0,
            best_move: MoveData::null(),
            best_eval: 0,
            best_move_this_iteration: MoveData::null(),
            best_eval_this_iteration: 0,
            seldepth: 0,
            timer: timer_start(),
            movetime: None,
            output: BotOutput::Uci,
            search_cancelled: false,
            searched_one_move: false,
            reports: Vec::new(),
        }
    }

    /// The share of the time left on the clock that one move may take: a
    /// twentieth.
    pub fn partition_time(&self, total_time: u64) -> (share: u64)
        ensures
            share == total_time / 20,
    {
        total_time / 20
    }

    /// Forgets the history of quiet moves and the killer moves.
    pub fn clear_short_term_mem(&mut self)
        ensures
            final(self).board == old(self).board,
            final(self).transposition_table == old(self).transposition_table,
            final(self).search_cancelled == old(self).search_cancelled,
            final(self).movetime == old(self).movetime,
            final(self).nodes == old(self).nodes,
            final(self).best_move == old(self).best_move,
            final(self).reports == old(self).reports,
            final(self).output == old(self).output,
            forall|side: int, from: int, to: int|
                0 <= side < 2 && 0 <= from < 64 && 0 <= to < 64
                    ==> #[trigger] final(self).history[side][from][to] == 0,
            forall|ply: int|
                0 <= ply < 30 ==> (#[trigger] final(self).killer_moves[ply]).moves[0] == null_move()
                    && final(self).killer_moves[ply].moves[1] == null_move(),
    {
        self.history = [[[0; 64]; 64]; 2];
        self.killer_moves = [KillerMoves::empty(); 30];
    }

    /// Whether the search is to stop: it was told to, or it looks at the
    /// clock at this node and the clock says that its time is spent.
    pub fn should_cancel_search(&self) -> (cancel: bool)
        ensures
            self.search_cancelled ==> cancel,
            !self.polls_clock() ==> cancel == self.search_cancelled,
    {
        if self.search_cancelled {
            return true;
        }
        match self.movetime {
            Some(movetime) => {
                if self.nodes % NODES_PER_POLL == 0 {
                    let elapsed = timer_elapsed(&self.timer);
                    time_is_up(duration_millis(&elapsed), movetime)
                } else {
                    false
                }
            },
            None => false,
        }
    }

    /// The score by which the search orders a move of the position, `ply`
    /// plies from the root: `move_score` of the move, of what stands on its
    /// destination, of its history for the side to move, and of whether it
    /// is a killer move at that ply.
    pub open spec fn score_of(
        &self,
        m: MoveData,
        root_move: MoveData,
        table_move: MoveData,
        ply: u8,
    ) -> i16 {
        let side = if self.board.white_to_move { 1int } else { 0int };
        move_score(
            m,
            root_move,
            table_move,
            self.board@.squares[m.to as int],
            self.history[side][m.from as int][m.to as int],
            ply < MAX_KILLER_MOVE_PLY && self.killer_moves[ply as int].holds(m),
        )
    }

    /// Gives each move of a list the score by which the search orders it.
    /// `root_move` is the best move of the last iteration when the list is
    /// that of the root, `table_move` the move that the transposition table
    /// suggests; either may be the null move.
    pub fn score_move_list(
        &self,
        move_list: &mut MoveList,
        root_move: &MoveData,
        table_move: &MoveData,
        ply: u8,
    )
        requires
            self.board.layout_ok(),
            forall|k: int|
                0 <= k < old(move_list)@.len() ==> (#[trigger] old(move_list)@[k]).0.from < 64
                    && old(move_list)@[k].0.to < 64,
        ensures
            final(move_list)@.len() == old(move_list)@.len(),
            forall|k: int|
                0 <= k < final(move_list)@.len()
                    ==> (#[trigger] final(move_list)@[k]).0 == old(move_list)@[k].0
                        && final(move_list)@[k].1 == self.score_of(
                        old(move_list)@[k].0,
                        *root_move,
                        *table_move,
                        ply,
                    ),
    {
        let n = move_list.len();
        let side: usize = if self.board.white_to_move { 1 } else { 0 };
        let mut i: usize = 0;
        while i < n
            invariant
                i <= n,
                n == move_list@.len(),
                n == old(move_list)@.len(),
                side == if self.board.white_to_move { 1int } else { 0int },
                self.board.layout_ok(),
                forall|k: int|
                    0 <= k < n
                        ==> (#[trigger] old(move_list)@[k]).0.from < 64
                            && old(move_list)@[k].0.to < 64,
                forall|k: int| i <= k < n ==> #[trigger] move_list@[k] == old(move_list)@[k],
                forall|k: int|
                    0 <= k < i ==> (#[trigger] move_list@[k]).0 == old(move_list)@[k].0
                        && move_list@[k].1 == self.score_of(
                        old(move_list)@[k].0,
                        *root_move,
                        *table_move,
                        ply,
                    ),
            decreases n - i,
        {
            let m = move_list.moves[i].0;
            let capture = self.board.get(m.to);
            let history = self.history[side][m.from as usize][m.to as usize];
            let killer = ply < MAX_KILLER_MOVE_PLY && self.killer_moves[ply as usize].is_killer(&m);
            let score = score_move(&m, root_move, table_move, capture, history, killer);
            move_list.moves[i] = (m, score);
            i += 1;
        }
    }
}

impl Bot {
    /// What a search leaves as it was: the position, the limits of the search
    /// and the size of the transposition table.
    pub open spec fn kept_from(&self, before: &Bot) -> bool {
        &&& self.board@ == before.board@
        &&& self.movetime == before.movetime
        &&& self.output == before.output
        &&& self.best_move == before.best_move
        &&& self.best_eval == before.best_eval
        &&& self.reports == before.reports
        &&& self.transposition_table.mbs == before.transposition_table.mbs
        &&& self.transposition_table@.len() == before.transposition_table@.len()
    }

    /// Whether the search of a node gets as far as trying the moves: it is
    /// not stopped and, away from the root, the position is no draw, the
    /// window is not closed by the distance to mate, and the transposition
    /// table settles nothing; and the depth is not used up, or the side to
    /// move is in check.
    pub open spec fn tries_moves(&self, depth: u8, ply: u8, alpha: i16, beta: i16) -> bool {
        let window = mate_window(alpha, beta, ply);
        &&& !self.polls_clock()
        &&& !self.search_cancelled
        &&& ply > 0 ==> {
            &&& !self.board@.is_draw()
            &&& window.0 < window.1
            &&& match self.transposition_table.entry_of(self.board@.key()) {
                Some(entry) => crate::transposition_table::usable_eval(
                    entry,
                    depth,
                    ply,
                    window.0,
                    window.1,
                ) is None,
                None => true,
            }
        }
        &&& depth > 0 || self.board@.in_check()
    }

    /// What the search of a node returns without trying a move, while the
    /// clock is not polled, if it tries none: 0 once the search is cancelled
    /// and, away from the root, for a drawn position; the lower end of the
    /// window if the distance to mate closes it; what the transposition table
    /// knows, if it settles the window; the value of the position once the
    /// captures are played out, within the window, if the depth is used up
    /// and the side to move is not in check; the score of a mate or stalemate
    /// if no move is legal; and the value once the captures are played out
    /// where the count of plies can go no further.
    pub open spec fn settled(&self, depth: u8, ply: u8, alpha: i16, beta: i16) -> Option<int> {
        let v = self.board@;
        let window = if ply > 0 {
            mate_window(alpha, beta, ply)
        } else {
            (alpha, beta)
        };
        let known = match self.transposition_table.entry_of(v.key()) {
            Some(entry) => crate::transposition_table::usable_eval(
                entry,
                depth,
                ply,
                window.0,
                window.1,
            ),
            None => None,
        };
        if self.search_cancelled {
            Some(0int)
        } else if ply > 0 && v.is_draw() {
            Some(0int)
        } else if ply > 0 && window.0 >= window.1 {
            Some(window.0 as int)
        } else if ply > 0 && known is Some {
            Some(
                if known->Some_0 < -i16::MAX {
                    -i16::MAX as int
                } else {
                    known->Some_0 as int
                },
            )
        } else if depth == 0 && !v.in_check() {
            Some(within(v.quiet_value(), window.0 as int, window.1 as int))
        } else if v.has_no_legal_move() {
            Some(terminal_score(v.in_check(), ply as int))
        } else if ply >= MAX_PLY {
            Some(within(v.quiet_value(), window.0 as int, window.1 as int))
        } else {
            None
        }
    }

    /// Whether the best move of the iteration is a legal move of a position
    /// that is worth the value of the position, and the evaluation of the
    /// iteration is that value.
    pub open spec fn found_best(&self, v: BoardView, depth: nat) -> bool {
        let m = self.best_move_this_iteration;
        &&& self.searched_one_move
        &&& self.best_eval_this_iteration == node_value(v, depth, 0)
        &&& is_best_move(v, depth, m)
    }

    /// Whether the killer moves of the first `plies` plies are as they were
    /// before and no history has shrunk.
    pub open spec fn memory_kept(&self, before: &Bot, plies: int) -> bool {
        memory_grown(
            self.history,
            self.killer_moves,
            before.history,
            before.killer_moves,
            plies,
        )
    }

    /// Whether the engine has noted what the search of the moves of a
    /// position found, where `m` is the move that it found best, or the null
    /// move if no move was worth more than `lower`. The slot of the position's
    /// key holds the entry of this search, or an entry that the slot keeps
    /// before it: the move, the evaluation as the table keeps it, the depth,
    /// and as the bound what the evaluation says (at least `upper`, exact, or
    /// at most `lower`). If a quiet move reached `upper`, it is a killer move
    /// of the ply and has gained the square of the depth in history, on top
    /// of what the searches further from the root have added to it; else
    /// the killer moves of the ply are as they were.
    #[verifier::opaque]
    pub open spec fn noted(
        &self,
        before: &Bot,
        m: MoveData,
        depth: u8,
        ply: u8,
        lower: i16,
        upper: i16,
        eval: i16,
    ) -> bool {
        let v = before.board@;
        let bound = if eval >= upper {
            EvalBound::Beta
        } else if eval > lower {
            EvalBound::Exact
        } else {
            EvalBound::Alpha
        };
        let entry = TTEntry {
            key: v.key(),
            best_move: m,
            eval_bound: bound,
            eval: crate::transposition_table::stored_eval(eval, ply),
            depth,
        };
        let held = self.transposition_table@[self.transposition_table.slot(v.key())];
        let refuted = eval >= upper && v.made(m).state().capture == pieces::NONE;
        let side = if v.white_to_move { 1int } else { 0int };
        &&& if eval > lower {
            v.moves(false).contains(m) && v.legal(m)
        } else {
            m == null_move()
        }
        &&& self.transposition_table@.len() > 0 ==> held == Some(entry)
            || crate::transposition_table::keeps(held, entry)
        &&& ply < MAX_KILLER_MOVE_PLY ==> if refuted {
            killer_added(before.killer_moves[ply as int], self.killer_moves[ply as int], m)
        } else {
            self.killer_moves[ply as int] == before.killer_moves[ply as int]
        }
        &&& refuted ==> self.history[side][m.from as int][m.to as int] >= capped_sum(
            before.history[side][m.from as int][m.to as int] as int,
            depth * depth,
        )
    }

    /// Killer moves and history that are the same are kept.
    proof fn lemma_memory_same(&self, before: &Bot, plies: int)
        requires
            self.history == before.history,
            self.killer_moves == before.killer_moves,
        ensures
            self.memory_kept(before, plies),
    {
        reveal(memory_grown);
    }

    /// What is kept of the first plies is kept of fewer.
    proof fn lemma_memory_fewer(&self, before: &Bot, plies: int, fewer: int)
        requires
            self.memory_kept(before, plies),
            fewer <= plies,
        ensures
            self.memory_kept(before, fewer),
    {
        reveal(memory_grown);
    }

    /// What is kept from one state to a second and from there to a third is
    /// kept from the first to the third.
    proof fn lemma_memory_chain(&self, mid: &Bot, before: &Bot, first: int, second: int, plies: int)
        requires
            mid.memory_kept(before, first),
            self.memory_kept(mid, second),
            plies <= first,
            plies <= second,
        ensures
            self.memory_kept(before, plies),
    {
        reveal(memory_grown);
        assert forall|p: int| 0 <= p < plies && p < 30 implies #[trigger] self.killer_moves[p]
            == before.killer_moves[p] by {
            assert(mid.killer_moves[p] == before.killer_moves[p]);
        }
        assert forall|s: int, f: int, t: int|
            0 <= s < 2 && 0 <= f < 64 && 0 <= t < 64 implies #[trigger] self.history[s][f][t]
            >= before.history[s][f][t] by {
            assert(mid.history[s][f][t] >= before.history[s][f][t]);
        }
    }

    /// What was noted after a state that kept the memory of an earlier one,
    /// on the same position, was noted after the earlier one too.
    proof fn lemma_noted_later(
        &self,
        mid: &Bot,
        before: &Bot,
        m: MoveData,
        depth: u8,
        ply: u8,
        lower: i16,
        upper: i16,
        eval: i16,
    )
        requires
            self.noted(mid, m, depth, ply, lower, upper, eval),
            mid.memory_kept(before, ply + 1),
            mid.board@ == before.board@,
            eval > lower ==> m.from < 64 && m.to < 64,
        ensures
            self.noted(before, m, depth, ply, lower, upper, eval),
    {
        reveal(memory_grown);
        reveal(Bot::noted);
        if ply < MAX_KILLER_MOVE_PLY {
            assert(mid.killer_moves[ply as int] == before.killer_moves[ply as int]);
        }
        if eval > lower {
            let side = if before.board@.white_to_move { 1int } else { 0int };
            assert(mid.history[side][m.from as int][m.to as int]
                >= before.history[side][m.from as int][m.to as int]);
        }
    }

    /// Whether the engine has noted what the search of a node found: as
    /// `noted` says, at the depth to which the position was searched and
    /// within the window that the distance to mate left of `alpha` and `beta`.
    pub open spec fn noted_node(
        &self,
        before: &Bot,
        m: MoveData,
        depth: u8,
        ply: u8,
        alpha: i16,
        beta: i16,
        eval: i16,
    ) -> bool {
        let window = if ply > 0 {
            mate_window(alpha, beta, ply)
        } else {
            (alpha, beta)
        };
        self.noted(
            before,
            m,
            extended(depth as nat, before.board@.in_check()) as u8,
            ply,
            window.0,
            window.1,
            eval,
        )
    }

    /// Whether the last report tells of the best move and its evaluation.
    pub open spec fn tells_best(&self) -> bool {
        &&& self.reports@.len() > 0
        &&& self.reports@.last().best_move == self.best_move
        &&& self.reports@.last().eval == self.best_eval
    }

    /// Whether nothing but the position sways the search: it has no time
    /// limit, it has not been stopped, and it has no transposition table.
    pub open spec fn undisturbed(&self) -> bool {
        &&& self.movetime is None
        &&& !self.search_cancelled
        &&& self.transposition_table@.len() == 0
    }

    /// The best move of the iteration is as it was, or it is a move of the
    /// position that fits it and leaves the own king safe.
    pub open spec fn root_move_ok(&self, before: &Bot) -> bool {
        ||| (self.best_move_this_iteration == before.best_move_this_iteration
            && self.searched_one_move == before.searched_one_move)
        ||| (self.searched_one_move && before.board@.moves(false).contains(
            self.best_move_this_iteration,
        ) && before.board@.fits(self.best_move_this_iteration) && before.board@.legal(
            self.best_move_this_iteration,
        ))
    }

    /// The quiescence search: the value of the position for the side to move
    /// once the captures are played out, brought into the window. The side to
    /// move may stand pat on the evaluation of the position as it is, or go on
    /// with a capture.
    pub fn q_search(&mut self, alpha: i16, beta: i16) -> (eval: i16)
        requires
            old(self).wf(),
            -i16::MAX <= alpha <= beta <= i16::MAX,
        ensures
            final(self).wf(),
            final(self).kept_from(old(self)),
            final(self).transposition_table == old(self).transposition_table,
            final(self).search_cancelled == old(self).search_cancelled,
            final(self).nodes == old(self).nodes,
            final(self).seldepth == old(self).seldepth,
            final(self).history == old(self).history,
            final(self).killer_moves == old(self).killer_moves,
            final(self).best_move_this_iteration == old(self).best_move_this_iteration,
            final(self).best_eval_this_iteration == old(self).best_eval_this_iteration,
            final(self).searched_one_move == old(self).searched_one_move,
            eval == within(old(self).board@.quiet_value(), alpha as int, beta as int),
        decreases piece_count(old(self).board@.squares, 64),
    {
        if self.q_nodes < u128::MAX {
            self.q_nodes += 1;
        }
        let ghost v = self.board@;
        let stand_pat = self.board.simple_eval();
        let mut move_list = self.board.get_moves(CAPTURES_ONLY);
        self.score_move_list(
            &mut move_list,
            &MoveData::null(),
            &MoveData::null(),
            MAX_KILLER_MOVE_PLY,
        );
        let ghost scored = move_list@;
        proof {
            assert(firsts(scored) =~= v.moves(true));
            lemma_quiet_value(v, scored, scored, standard());
        }
        if stand_pat >= beta {
            return beta;
        }
        let mut best = alpha;
        if stand_pat > best {
            best = stand_pat;
        }
        let n = move_list.len();
        let mut i: usize = 0;
        while i < n
            invariant
                i <= n,
                n == move_list@.len(),
                self.wf(),
                self.kept_from(old(self)),
                v == self.board@,
                self.transposition_table == old(self).transposition_table,
                self.search_cancelled == old(self).search_cancelled,
                self.nodes == old(self).nodes,
                self.seldepth == old(self).seldepth,
                self.history == old(self).history,
                self.killer_moves == old(self).killer_moves,
                self.best_move_this_iteration == old(self).best_move_this_iteration,
                self.best_eval_this_iteration == old(self).best_eval_this_iteration,
                self.searched_one_move == old(self).searched_one_move,
                -i16::MAX <= alpha <= best <= beta <= i16::MAX,
                firsts(scored) == v.moves(true),
                move_list@.to_multiset() == scored.to_multiset(),
                best_over(v, firsts(move_list@), i as nat, standard()) < beta,
                best == within(
                    best_over(v, firsts(move_list@), i as nat, standard()),
                    alpha as int,
                    beta as int,
                ),
                forall|k: int|
                    0 <= k < n ==> v.fits((#[trigger] move_list@[k]).0) && v.takes(
                        move_list@[k].0,
                    ),
            decreases n - i,
        {
            let ghost before = move_list@;
            let m = move_list.next(i);
            proof {
                assert forall|k: int| 0 <= k < n implies v.fits((#[trigger] move_list@[k]).0)
                    && v.takes(move_list@[k].0) by {
                    let j = choose|j: int| 0 <= j < before.len() && before[j] == move_list@[k];
                    assert(v.fits(before[j].0));
                }
                lemma_best_over_prefix(v, firsts(before), firsts(move_list@), i as nat, standard());
                lemma_quiet_value(v, move_list@, scored, standard());
                assert(firsts(move_list@)[i as int] == m);
                lemma_capture_count(v, m);
                lemma_undo_make(v, m);
            }
            if self.board.make_move(&m) {
                let eval = -self.q_search(-beta, -best);
                self.board.undo_move(&m);
                assert(eval == within(v.capture_worth(m, standard()), best as int, beta as int));
                if eval >= beta {
                    return beta;
                }
                if eval > best {
                    best = eval;
                }
            }
            i += 1;
        }
        proof {
            lemma_quiet_value(v, move_list@, scored, standard());
        }
        best
    }
}

/// What the moves of a list in any order say of the moves of the position:
/// the best of the list is the best of the position's moves, it is at least
/// the worth of each legal move of the list, and if no move of the list is
/// legal, the position has no legal move.
proof fn lemma_searched_value(
    v: BoardView,
    list: Seq<(MoveData, i16)>,
    scored: Seq<(MoveData, i16)>,
    depth: nat,
    ply: nat,
)
    requires
        ply < MAX_PLY,
        list.to_multiset() == scored.to_multiset(),
        firsts(scored) == v.moves(false),
    ensures
        best_reply(v, firsts(list), list.len(), depth, ply) == best_reply(
            v,
            v.moves(false),
            v.moves(false).len(),
            depth,
            ply,
        ),
        forall|k: int|
            0 <= k < list.len() && v.legal((#[trigger] list[k]).0) ==> best_reply(
                v,
                v.moves(false),
                v.moves(false).len(),
                depth,
                ply,
            ) >= reply_worth(v, list[k].0, depth, ply) && !v.has_no_legal_move(),
        (forall|k: int| 0 <= k < list.len() ==> !v.legal((#[trigger] list[k]).0))
            ==> v.has_no_legal_move(),
{
    crate::quiescence::lemma_firsts_same(list, scored);
    crate::quiescence::lemma_firsts_same(scored, list);
    lemma_best_reply_same(v, firsts(list), firsts(scored), depth, ply);
    lemma_best_reply(v, firsts(list), list.len(), depth, ply);
    assert forall|k: int| 0 <= k < list.len() && v.legal((#[trigger] list[k]).0) implies best_reply(
        v,
        v.moves(false),
        v.moves(false).len(),
        depth,
        ply,
    ) >= reply_worth(v, list[k].0, depth, ply) && !v.has_no_legal_move() by {
        assert(firsts(list)[k] == list[k].0);
        assert(firsts(scored).contains(firsts(list)[k]));
        let j = choose|j: int| 0 <= j < firsts(scored).len() && firsts(scored)[j] == list[k].0;
        assert(v.legal(v.moves(false)[j]));
    }
    if forall|k: int| 0 <= k < list.len() ==> !v.legal((#[trigger] list[k]).0) {
        assert forall|j: int| 0 <= j < v.moves(false).len() implies !v.legal(
            #[trigger] v.moves(false)[j],
        ) by {
            assert(firsts(list).contains(firsts(scored)[j]));
            let k = choose|k: int| 0 <= k < firsts(list).len() && firsts(list)[k] == firsts(
                scored,
            )[j];
            assert(!v.legal(list[k].0));
        }
    }
}

/// Whether a move is a best move of a position searched to a depth: a legal
/// move of the position that is worth the value of the position.
pub open spec fn is_best_move(v: BoardView, depth: nat, m: MoveData) -> bool {
    &&& v.moves(false).contains(m)
    &&& v.fits(m)
    &&& v.legal(m)
    &&& reply_worth(v, m, (extended(depth, v.in_check()) - 1) as nat, 0) == node_value(
        v,
        depth,
        0,
    )
}

/// An evaluation brought into the range of scores that can be negated.
pub fn negatable(eval: i16) -> (out: i16)
    ensures
        out == if eval < -i16::MAX { (-i16::MAX) as i16 } else { eval },
        -i16::MAX <= out <= i16::MAX,
{
    if eval < -i16::MAX {
        -i16::MAX
    } else {
        eval
    }
}

impl Bot {
    /// Makes a move, searches the position after it, and takes the move back.
    /// Returns nothing if the move is not legal; else what the move is worth
    /// within the window together with the piece that it takes. After a move
    /// has raised alpha, a move is first searched with an empty window, and in
    /// full only if that shows it to be better.
    fn search_move(
        &mut self,
        m: &MoveData,
        depth: u8,
        ply: u8,
        alpha: i16,
        beta: i16,
        found_pv: bool,
    ) -> (searched: Option<(i16, u8)>)
        requires
            old(self).wf(),
            old(self).board@.fits(*m),
            ply < MAX_PLY,
            -i16::MAX <= alpha < beta <= i16::MAX,
        ensures
            final(self).wf(),
            final(self).kept_from(old(self)),
            final(self).searched_one_move == old(self).searched_one_move,
            final(self).best_move_this_iteration == old(self).best_move_this_iteration,
            final(self).best_eval_this_iteration == old(self).best_eval_this_iteration,
            old(self).search_cancelled ==> final(self).search_cancelled,
            old(self).movetime is None && !old(self).search_cancelled
                ==> !final(self).search_cancelled,
            searched is Some == old(self).board@.legal(*m),
            searched is Some ==> -i16::MAX < searched->Some_0.0 < i16::MAX,
            searched is Some
                && old(self).board@.made(*m).is_draw()
                && !final(self).search_cancelled
                ==> searched->Some_0.0 == 0,
            searched is Some ==> searched->Some_0.1 == old(self).board@.made(
                *m,
            ).state().capture,
            searched is None ==> final(self).search_cancelled == old(self).search_cancelled
                && final(self).transposition_table == old(self).transposition_table
                && final(self).history == old(self).history
                && final(self).killer_moves == old(self).killer_moves,
            final(self).memory_kept(old(self), ply + 1),
            old(self).undisturbed() ==> final(self).undisturbed(),
            old(self).undisturbed() && searched is Some ==> agrees(
                searched->Some_0.0 as int,
                reply_worth(old(self).board@, *m, depth as nat, ply as nat),
                alpha as int,
                beta as int,
            ),
        decreases MAX_PLY - ply, 0nat,
    {
        let ghost v = self.board@;
        let ghost worth = reply_worth(v, *m, depth as nat, ply as nat);
        proof {
            lemma_undo_make(v, *m);
            self.lemma_memory_same(old(self), ply + 1);
        }
        if !self.board.make_move(m) {
            return None;
        }
        let capture = self.board.history.peek().capture;
        let mut eval: i16 = 0;
        let mut needs_fuller_search = true;
        if found_pv {
            let ghost at = *self;
            let reply = self.ab_search(depth, ply + 1, -alpha - 1, -alpha);
            eval = -reply;
            needs_fuller_search = eval > alpha;
            proof {
                lemma_within_negated(reply as int, alpha as int, alpha + 1);
                lemma_within_negated(-worth, alpha as int, alpha + 1);
                self.lemma_memory_chain(&at, old(self), ply + 1, ply + 1, ply + 1);
            }
        }
        if needs_fuller_search {
            let ghost at = *self;
            let reply = self.ab_search(depth, ply + 1, -beta, -alpha);
            eval = -reply;
            proof {
                lemma_within_negated(reply as int, alpha as int, beta as int);
                lemma_within_negated(-worth, alpha as int, beta as int);
                self.lemma_memory_chain(&at, old(self), ply + 1, ply + 1, ply + 1);
            }
        }
        self.board.undo_move(m);
        Some((eval, capture))
    }

    /// The alpha-beta search of the position to the given depth, `ply` plies
    /// from the root, within the window. It leaves the position as it was.
    /// Once the search is cancelled, it returns 0, and away from the root a
    /// drawn position is worth 0; `settled` says what it returns wherever it
    /// tries no move. Where it tries the moves, it notes what it found
    /// (`noted_node`): an entry for the position in the transposition table
    /// and, for a quiet move that refuted the line, a killer move and
    /// history. Where it does not, the table, the killer moves and the
    /// history stay as they were. No killer move of a ply nearer to the root
    /// changes, and no history shrinks.
    #[verifier::rlimit(30)]
    pub fn ab_search(&mut self, depth: u8, ply: u8, alpha: i16, beta: i16) -> (eval: i16)
        requires
            old(self).wf(),
            -i16::MAX <= alpha < beta <= i16::MAX,
        ensures
            final(self).wf(),
            final(self).kept_from(old(self)),
            -i16::MAX <= eval <= i16::MAX,
            ply > 0 ==> -i16::MAX < eval < i16::MAX,
            final(self).memory_kept(old(self), ply as int),
            old(self).tries_moves(depth, ply, alpha, beta)
                && ply < MAX_PLY
                && !old(self).board@.has_no_legal_move()
                && !final(self).search_cancelled
                ==> exists|m: MoveData|
                    #[trigger] final(self).noted_node(old(self), m, depth, ply, alpha, beta, eval),
            ply == 0
                && depth > 0
                && alpha == -i16::MAX
                && beta == i16::MAX
                && old(self).movetime is None
                && !old(self).search_cancelled
                && !old(self).board@.has_no_legal_move()
                ==> final(self).searched_one_move,
            old(self).search_cancelled ==> final(self).search_cancelled,
            final(self).search_cancelled ==> eval == 0,
            old(self).movetime is None && !old(self).search_cancelled
                ==> !final(self).search_cancelled,
            ply > 0 && old(self).board@.is_draw() ==> eval == 0,
            !old(self).polls_clock() ==> match old(self).settled(depth, ply, alpha, beta) {
                Some(value) => eval == value,
                None => true,
            },
            !old(self).polls_clock()
                && !old(self).search_cancelled
                && ply > 0
                && old(self).board@.is_draw()
                ==> !final(self).search_cancelled,
            !old(self).polls_clock() && (!old(self).tries_moves(depth, ply, alpha, beta) || ply
                >= MAX_PLY || old(self).board@.has_no_legal_move())
                ==> final(self).transposition_table == old(self).transposition_table
                    && final(self).history == old(self).history
                    && final(self).killer_moves == old(self).killer_moves,
            ply > 0
                ==> final(self).searched_one_move == old(self).searched_one_move
                    && final(self).best_move_this_iteration == old(self).best_move_this_iteration
                    && final(self).best_eval_this_iteration == old(self).best_eval_this_iteration,
            final(self).root_move_ok(old(self)),
            -i16::MAX <= final(self).best_eval_this_iteration <= i16::MAX
                || final(self).best_eval_this_iteration == old(self).best_eval_this_iteration,
            old(self).tries_moves(depth, ply, alpha, beta) && old(self).board@.has_no_legal_move()
                ==> eval == terminal_score(old(self).board@.in_check(), ply as int)
                    && !final(self).search_cancelled,
            ply == 0
                && only_draws(old(self).board@)
                && !old(self).searched_one_move
                && final(self).searched_one_move
                ==> final(self).best_eval_this_iteration == 0,
            old(self).undisturbed() ==> final(self).undisturbed() && agrees(
                eval as int,
                node_value(old(self).board@, depth as nat, ply as nat),
                alpha as int,
                beta as int,
            ),
            old(self).undisturbed()
                && ply == 0
                && depth > 0
                && !old(self).board@.has_no_legal_move()
                && alpha < node_value(old(self).board@, depth as nat, 0) < beta
                ==> final(self).found_best(old(self).board@, depth as nat),
        decreases MAX_PLY - ply, 3nat,
    {
        proof {
            self.lemma_memory_same(old(self), ply as int);
        }
        if self.should_cancel_search() {
            self.search_cancelled = true;
            return 0;
        }
        let not_root = ply != 0;
        let ghost plain = old(self).undisturbed();
        let ghost v = self.board@;
        let ghost value = node_value(v, depth as nat, ply as nat);
        let ghost low: int = if ply > 0 { -(CHECKMATE - ply) } else { -i16::MAX - 1 };
        let ghost high: int = if ply > 0 { CHECKMATE - ply - 1 } else { i16::MAX + 1 };
        proof {
            lemma_node_value_range(v, depth as nat, ply as nat);
            lemma_capture_value_range(v, v.moves(true).len());
        }
        let mut lower = alpha;
        let mut upper = beta;
        if not_root {
            if ply > self.seldepth {
                self.seldepth = ply;
            }
            if self.nodes < u128::MAX {
                self.nodes += 1;
            }
            if self.board.is_draw() {
                return 0;
            }
            let window = mate_distance_window(lower, upper, ply);
            lower = window.0;
            upper = window.1;
            if lower >= upper {
                proof {
                    lemma_narrowed_window(
                        lower as int,
                        value,
                        alpha as int,
                        beta as int,
                        low,
                        high,
                    );
                }
                return lower;
            }
        }
        proof {
            lemma_answers_for(
                value,
                alpha as int,
                beta as int,
                low,
                high,
                lower as int,
                upper as int,
            );
        }
        let key = self.board.zobrist.key.peek();
        let (tt_eval, tt_move) = self.transposition_table.lookup(key, depth, ply, lower, upper);
        if not_root {
            match tt_eval {
                Some(known) => {
                    return negatable(known);
                },
                None => {},
            }
        }
        let table_move = match tt_move {
            Some(m) => m,
            None => MoveData::null(),
        };
        let ghost at = *self;
        let result = self.search_node(depth, ply, lower, upper, &table_move);
        proof {
            if plain && lower <= result <= upper {
                assert(agrees(result as int, value, lower as int, upper as int));
            }
            if (depth > 0 || v.in_check()) && ply < MAX_PLY && !v.has_no_legal_move()
                && !self.search_cancelled {
                let deeper = extended(depth as nat, v.in_check()) as u8;
                let m = choose|m: MoveData|
                    #[trigger] self.noted(&at, m, deeper, ply, lower, upper, result);
                assert(self.noted(old(self), m, deeper, ply, lower, upper, result)) by {
                    reveal(Bot::noted);
                }
                assert(self.noted_node(old(self), m, depth, ply, alpha, beta, result));
            }
        }
        result
    }

    /// The search of a node that nothing has settled beforehand: the value
    /// of the position once the captures are played out if the depth is used
    /// up, the score of a mate or stalemate if no move is legal, else what
    /// the moves are worth; where the count of plies can go no further, the
    /// moves are not tried and the captures are played out instead.
    fn search_node(
        &mut self,
        depth: u8,
        ply: u8,
        lower: i16,
        upper: i16,
        table_move: &MoveData,
    ) -> (eval: i16)
        requires
            old(self).wf(),
            !old(self).search_cancelled,
            !(ply > 0 && old(self).board@.is_draw()),
            -i16::MAX <= lower < upper <= i16::MAX,
            ply > 0 ==> -(CHECKMATE - ply) <= lower && upper <= CHECKMATE - ply - 1,
        ensures
            final(self).wf(),
            final(self).kept_from(old(self)),
            final(self).memory_kept(old(self), ply as int),
            -i16::MAX <= eval <= i16::MAX,
            ply > 0 ==> -i16::MAX < eval < i16::MAX,
            final(self).search_cancelled ==> eval == 0,
            old(self).movetime is None ==> !final(self).search_cancelled,
            ply > 0
                ==> final(self).searched_one_move == old(self).searched_one_move
                    && final(self).best_move_this_iteration == old(self).best_move_this_iteration
                    && final(self).best_eval_this_iteration == old(self).best_eval_this_iteration,
            final(self).root_move_ok(old(self)),
            -i16::MAX <= final(self).best_eval_this_iteration <= i16::MAX
                || final(self).best_eval_this_iteration == old(self).best_eval_this_iteration,
            (depth > 0 || old(self).board@.in_check()) && old(self).board@.has_no_legal_move()
                ==> eval == terminal_score(old(self).board@.in_check(), ply as int)
                    && !final(self).search_cancelled,
            (depth == 0 && !old(self).board@.in_check())
                || (ply >= MAX_PLY && !old(self).board@.has_no_legal_move())
                ==> eval == within(
                old(self).board@.quiet_value(),
                lower as int,
                upper as int,
            ),
            (depth == 0 && !old(self).board@.in_check())
                || ply >= MAX_PLY
                || old(self).board@.has_no_legal_move()
                ==> final(self).transposition_table == old(self).transposition_table
                    && final(self).history == old(self).history
                    && final(self).killer_moves == old(self).killer_moves,
            (depth > 0 || old(self).board@.in_check())
                && ply < MAX_PLY
                && !old(self).board@.has_no_legal_move()
                && !final(self).search_cancelled
                ==> exists|m: MoveData|
                    #[trigger] final(self).noted(
                        old(self),
                        m,
                        extended(depth as nat, old(self).board@.in_check()) as u8,
                        ply,
                        lower,
                        upper,
                        eval,
                    ),
            ply == 0
                && depth > 0
                && lower == -i16::MAX
                && upper == i16::MAX
                && old(self).movetime is None
                && !old(self).board@.has_no_legal_move()
                ==> final(self).searched_one_move,
            ply == 0
                && only_draws(old(self).board@)
                && !old(self).searched_one_move
                && final(self).searched_one_move
                ==> final(self).best_eval_this_iteration == 0,
            old(self).undisturbed() ==> final(self).undisturbed() && agrees(
                eval as int,
                node_value(old(self).board@, depth as nat, ply as nat),
                lower as int,
                upper as int,
            ) && (lower <= eval <= upper || eval == node_value(
                old(self).board@,
                depth as nat,
                ply as nat,
            )),
            old(self).undisturbed()
                && ply == 0
                && depth > 0
                && !old(self).board@.has_no_legal_move()
                && lower < node_value(old(self).board@, depth as nat, 0) < upper
                ==> final(self).found_best(old(self).board@, depth as nat),
        decreases MAX_PLY - ply, 2nat,
    {
        let ghost plain = old(self).undisturbed();
        let ghost v = self.board@;
        let ghost value = node_value(v, depth as nat, ply as nat);
        proof {
            self.lemma_memory_same(old(self), ply as int);
        }
        let in_check = self.board.in_check();
        let mut deeper = depth;
        if in_check && deeper < u8::MAX {
            deeper += 1;
        }
        if deeper == 0 {
            if self.nodes > 0 {
                self.nodes -= 1;
            }
            let quiet = self.q_search(lower, upper);
            proof {
                lemma_node_value_quiet(v, depth as nat, ply as nat);
                assert(agrees(quiet as int, value, lower as int, upper as int));
            }
            return quiet;
        }
        proof {
            lemma_node_value_of_moves(v, depth as nat, ply as nat);
        }
        if ply >= MAX_PLY {
            if !self.board.has_legal_move() {
                return terminal_eval(in_check, ply);
            }
            let quiet = self.q_search(lower, upper);
            proof {
                assert(agrees(quiet as int, value, lower as int, upper as int));
            }
            return quiet;
        }
        let result = self.search_moves(deeper, ply, lower, upper, table_move);
        proof {
            if plain && !v.has_no_legal_move() {
                assert(agrees(result as int, value, lower as int, upper as int));
            }
            if !v.has_no_legal_move() && !self.search_cancelled {
                let m = choose|m: MoveData|
                    #[trigger] self.noted(old(self), m, deeper, ply, lower, upper, result);
                assert(deeper == extended(depth as nat, v.in_check()) as u8);
            }
        }
        result
    }

    /// Tries the moves of the position one after the other, the best by their
    /// scores first, and returns what the best of them is worth within the
    /// window: `upper` as soon as a move is worth that much, else the best
    /// worth above `lower`, else `lower`; the score of a mate or stalemate if
    /// no move is legal. What it found goes into the transposition table; a
    /// quiet move that reached `upper` becomes a killer move and gains
    /// history.
    #[verifier::rlimit(30)]
    fn search_moves(
        &mut self,
        deeper: u8,
        ply: u8,
        lower: i16,
        upper: i16,
        table_move: &MoveData,
    ) -> (eval: i16)
        requires
            old(self).wf(),
            !old(self).search_cancelled,
            ply < MAX_PLY,
            deeper >= 1,
            -i16::MAX <= lower < upper <= i16::MAX,
            ply > 0 ==> -(CHECKMATE - ply) <= lower && upper <= CHECKMATE - ply - 1,
        ensures
            final(self).wf(),
            final(self).kept_from(old(self)),
            final(self).memory_kept(old(self), ply as int),
            -i16::MAX <= eval <= i16::MAX,
            ply > 0 ==> -i16::MAX < eval < i16::MAX,
            final(self).search_cancelled ==> eval == 0,
            old(self).movetime is None ==> !final(self).search_cancelled,
            ply > 0
                ==> final(self).searched_one_move == old(self).searched_one_move
                    && final(self).best_move_this_iteration == old(self).best_move_this_iteration
                    && final(self).best_eval_this_iteration == old(self).best_eval_this_iteration,
            final(self).root_move_ok(old(self)),
            -i16::MAX <= final(self).best_eval_this_iteration <= i16::MAX
                || final(self).best_eval_this_iteration == old(self).best_eval_this_iteration,
            old(self).board@.has_no_legal_move()
                ==> eval == terminal_score(old(self).board@.in_check(), ply as int)
                    && !final(self).search_cancelled
                    && final(self).transposition_table == old(self).transposition_table
                    && final(self).history == old(self).history
                    && final(self).killer_moves == old(self).killer_moves,
            !old(self).board@.has_no_legal_move() && !final(self).search_cancelled
                ==> exists|m: MoveData|
                    #[trigger] final(self).noted(old(self), m, deeper, ply, lower, upper, eval),
            ply == 0
                && lower == -i16::MAX
                && upper == i16::MAX
                && old(self).movetime is None
                && !old(self).board@.has_no_legal_move()
                ==> final(self).searched_one_move,
            ply == 0
                && only_draws(old(self).board@)
                && !old(self).searched_one_move
                && final(self).searched_one_move
                ==> final(self).best_eval_this_iteration == 0,
            old(self).undisturbed() ==> final(self).undisturbed(),
            old(self).undisturbed() && !old(self).board@.has_no_legal_move()
                ==> lower <= eval <= upper && agrees(
                    eval as int,
                    moves_value(old(self).board@, (deeper - 1) as nat, ply as nat),
                    lower as int,
                    upper as int,
                ),
            old(self).undisturbed()
                && ply == 0
                && !old(self).board@.has_no_legal_move()
                && lower < moves_value(old(self).board@, (deeper - 1) as nat, 0) < upper
                ==> final(self).searched_one_move
                    && final(self).best_eval_this_iteration == moves_value(
                    old(self).board@,
                    (deeper - 1) as nat,
                    0,
                )
                    && old(self).board@.moves(false).contains(final(self).best_move_this_iteration)
                    && old(self).board@.fits(final(self).best_move_this_iteration)
                    && old(self).board@.legal(final(self).best_move_this_iteration)
                    && reply_worth(
                    old(self).board@,
                    final(self).best_move_this_iteration,
                    (deeper - 1) as nat,
                    0,
                ) == moves_value(old(self).board@, (deeper - 1) as nat, 0),
        decreases MAX_PLY - ply, 1nat,
    {
        let ghost plain = old(self).undisturbed();
        let ghost v = self.board@;
        let ghost child_depth = (deeper - 1) as nat;
        let ghost value = moves_value(v, child_depth, ply as nat);
        proof {
            self.lemma_memory_same(old(self), ply + 1);
        }
        let key = self.board.zobrist.key.peek();
        let in_check = self.board.in_check();
        let mut raised = lower;
        let mut found_legal_move = false;
        let mut found_pv = false;
        let mut best_move_this_search = MoveData::null();
        let mut move_list = self.board.get_moves(ALL_MOVES);
        let root_move = if ply == 0 {
            self.best_move
        } else {
            MoveData::null()
        };
        self.score_move_list(&mut move_list, &root_move, table_move, ply);
        let ghost scored = move_list@;
        assert(firsts(scored) =~= v.moves(false));
        let n = move_list.len();
        let mut i: usize = 0;
        while i < n
            invariant
                i <= n,
                n == move_list@.len(),
                self.wf(),
                self.kept_from(old(self)),
                self.memory_kept(old(self), ply + 1),
                v == self.board@,
                v == old(self).board@,
                key == v.key(),
                in_check == v.in_check(),
                plain == old(self).undisturbed(),
                plain ==> self.undisturbed(),
                value == moves_value(v, child_depth, ply as nat),
                child_depth == deeper - 1,
                lower < upper,
                lower <= raised,
                ply > 0 ==> -(CHECKMATE - ply) <= lower && upper <= CHECKMATE - ply - 1,
                found_legal_move ==> raised > -i16::MAX,
                !found_legal_move ==> self.transposition_table == old(self).transposition_table
                    && self.history == old(self).history
                    && self.killer_moves == old(self).killer_moves,
                !found_pv ==> raised == lower && best_move_this_search == null_move(),
                found_pv ==> raised > lower && v.moves(false).contains(best_move_this_search)
                    && v.legal(best_move_this_search),
                found_pv && ply == 0 ==> self.searched_one_move,
                ply == 0 && only_draws(v) && !old(self).searched_one_move
                    && self.searched_one_move ==> self.best_eval_this_iteration == 0,
                plain && ply == 0 && found_pv
                    ==> self.best_eval_this_iteration == raised
                        && v.moves(false).contains(self.best_move_this_iteration)
                        && v.fits(self.best_move_this_iteration)
                        && v.legal(self.best_move_this_iteration)
                        && reply_worth(v, self.best_move_this_iteration, child_depth, 0) == raised,
                !found_legal_move ==> forall|k: int|
                    0 <= k < i ==> !v.legal((#[trigger] move_list@[k]).0),
                plain ==> best_reply(v, firsts(move_list@), i as nat, child_depth, ply as nat)
                    < upper,
                plain ==> raised == if best_reply(
                    v,
                    firsts(move_list@),
                    i as nat,
                    child_depth,
                    ply as nat,
                ) > lower {
                    best_reply(v, firsts(move_list@), i as nat, child_depth, ply as nat)
                } else {
                    lower as int
                },
                plain ==> found_pv == (best_reply(
                    v,
                    firsts(move_list@),
                    i as nat,
                    child_depth,
                    ply as nat,
                ) > lower),
                firsts(scored) == v.moves(false),
                move_list@.to_multiset() == scored.to_multiset(),
                found_legal_move ==> !v.has_no_legal_move(),
                !self.search_cancelled,
                ply > 0 ==> self.searched_one_move == old(self).searched_one_move
                    && self.best_move_this_iteration == old(self).best_move_this_iteration
                    && self.best_eval_this_iteration == old(self).best_eval_this_iteration,
                self.root_move_ok(old(self)),
                -i16::MAX <= self.best_eval_this_iteration <= i16::MAX
                    || self.best_eval_this_iteration == old(self).best_eval_this_iteration,
                ply < MAX_PLY,
                deeper >= 1,
                -i16::MAX <= raised < upper <= i16::MAX,
                forall|k: int| 0 <= k < n ==> v.fits((#[trigger] move_list@[k]).0),
            decreases n - i,
        {
            let ghost before = move_list@;
            let m = move_list.next(i);
            proof {
                assert forall|k: int| 0 <= k < n implies v.fits((#[trigger] move_list@[k]).0) by {
                    let j = choose|j: int| 0 <= j < before.len() && before[j] == move_list@[k];
                    assert(v.fits(before[j].0));
                }
                lemma_undo_make(v, m);
                crate::quiescence::lemma_firsts_same(move_list@, scored);
                assert(firsts(move_list@)[i as int] == m);
                assert(firsts(scored).contains(m));
                lemma_best_reply_prefix(
                    v,
                    firsts(before),
                    firsts(move_list@),
                    i as nat,
                    child_depth,
                    ply as nat,
                );
            }
            let ghost worth = reply_worth(v, m, child_depth, ply as nat);
            let ghost best = best_reply(v, firsts(move_list@), i as nat, child_depth, ply as nat);
            let ghost next_best = if v.legal(m) && worth > best {
                worth
            } else {
                best
            };
            assert(best_reply(v, firsts(move_list@), (i + 1) as nat, child_depth, ply as nat)
                == next_best);
            let ghost at = *self;
            let searched = self.search_move(&m, deeper - 1, ply, raised, upper, found_pv);
            proof {
                self.lemma_memory_chain(&at, old(self), ply + 1, ply + 1, ply + 1);
            }
            if searched.is_some() {
                let (eval, capture) = searched.unwrap();
                found_legal_move = true;
                proof {
                    let j = choose|j: int| 0 <= j < firsts(scored).len() && firsts(scored)[j] == m;
                    assert(v.legal(v.moves(false)[j]));
                    assert(!v.has_no_legal_move());
                    if plain {
                        lemma_search_step(
                            lower as int,
                            raised as int,
                            upper as int,
                            best,
                            worth,
                            eval as int,
                        );
                    }
                }
                if self.should_cancel_search() {
                    self.search_cancelled = true;
                    proof {
                        self.lemma_memory_fewer(old(self), ply + 1, ply as int);
                    }
                    return 0;
                }
                if eval >= upper {
                    proof {
                        if plain {
                            lemma_searched_value(v, move_list@, scored, child_depth, ply as nat);
                            assert(v.legal(move_list@[i as int].0));
                            assert(agrees(upper as int, value, lower as int, upper as int));
                        }
                    }
                    let ghost mid = *self;
                    self.note_cutoff(&m, Ghost(lower), upper, deeper, ply, capture);
                    proof {
                        self.lemma_noted_later(
                            &mid,
                            old(self),
                            m,
                            deeper,
                            ply,
                            lower,
                            upper,
                            upper,
                        );
                        self.lemma_memory_chain(
                            &mid,
                            old(self),
                            ply + 1,
                            ply as int,
                            ply as int,
                        );
                    }
                    return upper;
                }
                if eval > raised {
                    raised = eval;
                    best_move_this_search = m;
                    found_pv = true;
                    if ply == 0 {
                        self.searched_one_move = true;
                        self.best_move_this_iteration = m;
                        self.best_eval_this_iteration = eval;
                    }
                }
            }
            i += 1;
        }
        proof {
            lemma_searched_value(v, move_list@, scored, child_depth, ply as nat);
            self.lemma_memory_fewer(old(self), ply + 1, ply as int);
        }
        if !found_legal_move {
            return terminal_eval(in_check, ply);
        }
        proof {
            if plain {
                assert(agrees(raised as int, value, lower as int, upper as int));
            }
        }
        let ghost at = *self;
        self.transposition_table.store(
            TTEntry {
                key,
                best_move: best_move_this_search,
                eval_bound: if found_pv {
                    EvalBound::Exact
                } else {
                    EvalBound::Alpha
                },
                eval: raised,
                depth: deeper,
            },
            ply,
        );
        proof {
            assert(self.noted(old(self), best_move_this_search, deeper, ply, lower, upper, raised))
                by {
                reveal(Bot::noted);
                reveal(memory_grown);
            }
        }
        raised
    }

    /// Notes that a move refuted the line that led to the position: the
    /// transposition table gets an entry that says so, and a quiet move gains
    /// history and becomes a killer move of its ply.
    fn note_cutoff(
        &mut self,
        m: &MoveData,
        Ghost(lower): Ghost<i16>,
        upper: i16,
        depth: u8,
        ply: u8,
        capture: u8,
    )
        requires
            old(self).wf(),
            lower < upper,
            old(self).board@.moves(false).contains(*m),
            old(self).board@.legal(*m),
            old(self).board@.fits(*m),
            capture == old(self).board@.made(*m).state().capture,
            -i16::MAX < crate::transposition_table::stored_eval(upper, ply) < i16::MAX,
        ensures
            final(self).wf(),
            final(self).kept_from(old(self)),
            final(self).board == old(self).board,
            final(self).search_cancelled == old(self).search_cancelled,
            final(self).searched_one_move == old(self).searched_one_move,
            final(self).best_move_this_iteration == old(self).best_move_this_iteration,
            final(self).best_eval_this_iteration == old(self).best_eval_this_iteration,
            final(self).nodes == old(self).nodes,
            final(self).noted(old(self), *m, depth, ply, lower, upper, upper),
            final(self).memory_kept(old(self), ply as int),
    {
        let key = self.board.zobrist.key.peek();
        self.transposition_table.store(
            TTEntry { key, best_move: *m, eval_bound: EvalBound::Beta, eval: upper, depth },
            ply,
        );
        if capture == pieces::NONE {
            let side: usize = if self.board.white_to_move { 1 } else { 0 };
            let bumped = bumped_history(self.history[side][m.from as usize][m.to as usize], depth);
            self.history[side][m.from as usize][m.to as usize] = bumped;
            if ply < MAX_KILLER_MOVE_PLY {
                self.killer_moves[ply as usize].add(*m);
            }
        }
        assert(self.noted(old(self), *m, depth, ply, lower, upper, upper)) by {
            reveal(Bot::noted);
        }
        assert(self.memory_kept(old(self), ply as int)) by {
            reveal(memory_grown);
        }
    }

    /// The line that the transposition table suggests from the position on,
    /// up to `depth` moves of it: moves in coordinates, a space after each.
    pub fn find_pv(&mut self, depth: u8) -> (pv: String)
        requires
            old(self).wf(),
        ensures
            final(self).wf(),
            final(self).kept_from(old(self)),
            final(self).transposition_table == old(self).transposition_table,
            final(self).search_cancelled == old(self).search_cancelled,
            final(self).nodes == old(self).nodes,
            final(self).q_nodes == old(self).q_nodes,
            final(self).seldepth == old(self).seldepth,
            final(self).searched_one_move == old(self).searched_one_move,
            final(self).best_move_this_iteration == old(self).best_move_this_iteration,
            final(self).best_eval_this_iteration == old(self).best_eval_this_iteration,
            pv@ == old(self).transposition_table.line_from(old(self).board@, depth as nat),
        decreases depth,
    {
        if depth == 0 {
            return String::new();
        }
        let ghost v = self.board@;
        let key = self.board.zobrist.key.peek();
        match self.transposition_table.get(key) {
            Some(entry) => {
                let best = entry.best_move;
                if best.from >= 64 || best.to >= 64 {
                    return String::new();
                }
                let text = best.to_coordinates();
                match self.board.select_move(text.as_str()) {
                    Some(m) => {
                        proof {
                            lemma_undo_make(self.board@, m);
                        }
                        if !self.board.make_move(&m) {
                            return String::new();
                        }
                        let rest = self.find_pv(depth - 1);
                        self.board.undo_move(&m);
                        proof {
                            reveal_strlit(" ");
                        }
                        let mut pv = text;
                        pv.append(" ");
                        pv.append(rest.as_str());
                        assert(pv@ =~= crate::move_data::coordinates_of(best) + seq![' '] + rest@);
                        pv
                    },
                    None => String::new(),
                }
            },
            None => String::new(),
        }
    }

    /// Adds what an iteration found to the record of the search, if a record
    /// is kept.
    pub fn record_info(&mut self, depth: u8, mate: bool, score: i16)
        requires
            old(self).wf(),
        ensures
            final(self).wf(),
            final(self).board@ == old(self).board@,
            final(self).movetime == old(self).movetime,
            final(self).output == old(self).output,
            final(self).best_move == old(self).best_move,
            final(self).best_eval == old(self).best_eval,
            final(self).search_cancelled == old(self).search_cancelled,
            final(self).transposition_table == old(self).transposition_table,
            old(self).output == BotOutput::Quiet ==> final(self).reports == old(self).reports,
            old(self).output == BotOutput::Uci
                ==> final(self).reports@.len() == old(self).reports@.len() + 1
                    && final(self).reports@.drop_last() == old(self).reports@
                    && final(self).reports@.last().depth == depth
                    && final(self).reports@.last().mate == mate
                    && final(self).reports@.last().score == score
                    && final(self).reports@.last().eval == old(self).best_eval
                    && final(self).reports@.last().best_move == old(self).best_move
                    && final(self).reports@.last().seldepth == old(self).seldepth
                    && final(self).reports@.last().nodes == crate::perft::counted(
                    old(self).nodes + old(self).q_nodes,
                )
                    && final(self).reports@.last().pv@ == old(self).transposition_table.line_from(
                    old(self).board@,
                    depth as nat,
                ),
    {
        if self.output != BotOutput::Uci {
            return;
        }
        let elapsed = timer_elapsed(&self.timer);
        let time_ms = duration_millis(&elapsed);
        let total_nodes = if self.nodes <= u128::MAX - self.q_nodes {
            self.nodes + self.q_nodes
        } else {
            u128::MAX
        };
        let pv = self.find_pv(depth);
        self.reports.push(
            SearchInfo {
                depth,
                seldepth: self.seldepth,
                mate,
                score,
                eval: self.best_eval,
                best_move: self.best_move,
                pv,
                nodes: total_nodes,
                time_ms,
            },
        );
    }

    /// Searches the position by iterative deepening, up to the given depth
    /// and, if a time is given, until that many milliseconds are spent. The
    /// best move of the last iteration that searched at least one move of the
    /// root to its end is left in `best_move`, its evaluation in `best_eval`;
    /// `best_move` is the null move if there is no such iteration. Without a
    /// time limit and with a depth of 1 or more there is one whenever a move
    /// is legal. Each report tells the evaluation of its iteration and the
    /// score that stands for it. If every legal move leads to a drawn
    /// position, the evaluation is 0. Without a time limit and without a
    /// transposition table the move is a best move and the evaluation the
    /// value of the position at the given depth. An entry of the table
    /// answers for every position with its key, at whatever distance from the
    /// root and after whatever moves it is met, so with a table the
    /// evaluation is not bound to that value.
    pub fn go(&mut self, movetime: Option<u64>, max_depth: u8, output: BotOutput)
        requires
            old(self).wf(),
        ensures
            final(self).wf(),
            final(self).board@ == old(self).board@,
            final(self).movetime == movetime,
            final(self).output == output,
            output == BotOutput::Quiet ==> final(self).reports@.len() == 0,
            final(self).reports@.len() <= max_depth,
            forall|k: int|
                0 <= k < final(self).reports@.len()
                    ==> k < (#[trigger] final(self).reports@[k]).depth <= max_depth,
            forall|j: int, k: int|
                0 <= j < k < final(self).reports@.len()
                    ==> (#[trigger] final(self).reports@[j]).depth
                        < (#[trigger] final(self).reports@[k]).depth,
            forall|k: int|
                0 <= k < final(self).reports@.len() ==> report_ok(
                    #[trigger] final(self).reports@[k],
                    old(self).board@.white_to_move,
                ),
            output == BotOutput::Uci && final(self).best_move != null_move() && !mate_score(
                final(self).best_eval,
            ) ==> final(self).tells_best(),
            movetime is None && max_depth >= 1 && !old(self).board@.has_no_legal_move()
                ==> final(self).best_move != null_move() && (output == BotOutput::Uci
                && reportable(final(self).best_eval, max_depth) ==> final(self).tells_best()
                && final(self).reports@.last().depth == max_depth),
            movetime is None ==> !final(self).search_cancelled,
            -i16::MAX <= final(self).best_eval <= i16::MAX,
            final(self).best_move == null_move() || (old(self).board@.fits(final(self).best_move)
                && old(self).board@.legal(final(self).best_move)),
            max_depth == 0 ==> final(self).best_move == null_move(),
            only_draws(old(self).board@) ==> final(self).best_eval == 0,
            movetime is None && old(self).transposition_table@.len() == 0 && max_depth >= 1
                ==> if old(self).board@.has_no_legal_move() {
                final(self).best_move == null_move()
            } else {
                is_best_move(old(self).board@, max_depth as nat, final(self).best_move)
                    && final(self).best_eval == node_value(old(self).board@, max_depth as nat, 0)
            },
    {
        let ghost plain = movetime is None && old(self).transposition_table@.len() == 0;
        let ghost v = self.board@;
        self.output = output;
        self.movetime = movetime;
        self.clear_short_term_mem();
        self.nodes = 0;
        self.q_nodes = 0;
        self.best_move = MoveData::null();
        self.best_eval = 0;
        self.search_cancelled = false;
        self.reports = Vec::new();
        self.timer = timer_start();
        let mut depth: u8 = 1;
        while depth <= max_depth
            invariant_except_break
                movetime is None && !v.has_no_legal_move() && depth > 1
                    ==> self.best_move != null_move() && (output == BotOutput::Uci && reportable(
                    self.best_eval,
                    (depth - 1) as u8,
                ) ==> self.tells_best() && self.reports@.last().depth == depth - 1),
                self.reports@.len() < depth,
                forall|k: int|
                    0 <= k < self.reports@.len()
                        ==> k < (#[trigger] self.reports@[k]).depth < depth,
                plain && !v.has_no_legal_move() && depth > 1 ==> is_best_move(
                    v,
                    (depth - 1) as nat,
                    self.best_move,
                ) && self.best_eval == node_value(v, (depth - 1) as nat, 0),
            invariant
                v == old(self).board@,
                movetime is None ==> !self.search_cancelled,
                forall|k: int|
                    0 <= k < self.reports@.len() ==> report_ok(
                        #[trigger] self.reports@[k],
                        v.white_to_move,
                    ),
                output == BotOutput::Uci && self.best_move != null_move() && !mate_score(
                    self.best_eval,
                ) ==> self.tells_best(),
                forall|j: int, k: int|
                    0 <= j < k < self.reports@.len() ==> (#[trigger] self.reports@[j]).depth < (
                    #[trigger] self.reports@[k]).depth,
                plain == (movetime is None && old(self).transposition_table@.len() == 0),
                plain ==> self.undisturbed(),
                plain && v.has_no_legal_move() ==> self.best_move == null_move(),
                1 <= depth <= max_depth + 1,
                self.wf(),
                self.board@ == old(self).board@,
                self.movetime == movetime,
                self.output == output,
                output == BotOutput::Quiet ==> self.reports@.len() == 0,
                -i16::MAX <= self.best_eval <= i16::MAX,
                self.best_move == null_move()
                    || (v.fits(self.best_move) && v.legal(self.best_move)),
                max_depth == 0 ==> self.best_move == null_move(),
                only_draws(v) ==> self.best_eval == 0,
            ensures
                movetime is None && max_depth >= 1 && !v.has_no_legal_move()
                    ==> self.best_move != null_move() && (output == BotOutput::Uci && reportable(
                    self.best_eval,
                    max_depth,
                ) ==> self.tells_best() && self.reports@.last().depth == max_depth),
                self.reports@.len() <= max_depth,
                forall|k: int|
                    0 <= k < self.reports@.len() ==> k < (#[trigger] self.reports@[k]).depth
                        <= max_depth,
                plain && !v.has_no_legal_move() && max_depth >= 1 ==> is_best_move(
                    v,
                    max_depth as nat,
                    self.best_move,
                ) && self.best_eval == node_value(v, max_depth as nat, 0),
            decreases max_depth - depth + 1,
        {
            self.best_move_this_iteration = MoveData::null();
            self.best_eval_this_iteration = 0;
            self.searched_one_move = false;
            let ghost recorded = self.reports@;
            proof {
                lemma_node_value_range(v, depth as nat, 0);
            }
            self.ab_search(depth, 0, -i16::MAX, i16::MAX);
            if self.searched_one_move {
                self.best_move = self.best_move_this_iteration;
                self.best_eval = negatable(self.best_eval_this_iteration);
                if is_checkmate(self.best_eval) {
                    if -CHECKMATE <= self.best_eval && self.best_eval <= CHECKMATE {
                        let ply = ply_from_mate(self.best_eval);
                        if ply <= depth as i16 {
                            let moves = mate_in_moves(self.best_eval, self.board.perspective());
                            self.record_info(depth, true, moves);
                        }
                    }
                } else {
                    let eval = self.best_eval;
                    self.record_info(depth, false, eval);
                }
            }
            proof {
                let now = self.reports@;
                assert(now == recorded || (now.len() == recorded.len() + 1 && now.drop_last()
                    == recorded && now.last().depth == depth));
                assert forall|k: int| 0 <= k < now.len() implies k < (#[trigger] now[k]).depth
                    <= depth by {
                    if now != recorded && k < recorded.len() {
                        assert(now[k] == now.drop_last()[k]);
                    }
                }
                assert forall|k: int| 0 <= k < now.len() implies report_ok(
                    #[trigger] now[k],
                    v.white_to_move,
                ) by {
                    if now != recorded && k < recorded.len() {
                        assert(now[k] == now.drop_last()[k]);
                    }
                }
                assert forall|j: int, k: int| 0 <= j < k < now.len() implies (
                #[trigger] now[j]).depth < (#[trigger] now[k]).depth by {
                    if now != recorded {
                        assert(now[j] == now.drop_last()[j]);
                        if k < recorded.len() {
                            assert(now[k] == now.drop_last()[k]);
                        }
                    }
                }
            }
            if self.search_cancelled || depth == u8::MAX {
                break;
            }
            depth += 1;
        }
    }
}

} // verus!
