//! What the tuning of the piece-square tables needs of the engine: games that
//! the engine plays against itself, and the value of a position with trial
//! tables, found by a quiescence search that evaluates with the tables it is
//! given.

use vstd::prelude::*;
use crate::board::Board;
use crate::bot::{Bot, BotOutput, MAX_DEPTH, MAX_KILLER_MOVE_PLY};
use crate::constants::is_checkmate;
use crate::draw::piece_count;
use crate::move_data::MoveData;
use crate::movegen::{lemma_capture_count, CAPTURES_ONLY};
use crate::pieces;
use crate::position::lemma_undo_make;
use crate::quiescence::{
    best_over,
    firsts,
    lemma_best_over_prefix,
    lemma_quiet_value,
    within,
    Standing,
};

verus! {

/// The number of entries of the trial tables: 64 for each of the six kinds of
/// piece, the pawn's first.
pub const PARAMS: usize = 384;

/// The worth for White of what stands on a square, by the trial tables: the
/// entry of its kind for the square if it is a white piece, the negative of
/// the entry for the square seen from the other end if it is a black one.
pub open spec fn tuned_piece_value(params: Seq<i16>, piece: u8, square: int) -> int {
    if piece >= pieces::COUNT {
        0
    } else if pieces::white_code(piece) {
        params[pieces::type_of(piece) * 64 + square] as int
    } else {
        -params[pieces::type_of(piece) * 64 + (63 - square)]
    }
}

/// The worth for White of what stands on the squares below `n`.
pub open spec fn tuned_material(squares: Seq<u8>, params: Seq<i16>, n: nat) -> int
    decreases n,
{
    if n == 0 {
        0
    } else {
        tuned_material(squares, params, (n - 1) as nat) + tuned_piece_value(
            params,
            squares[n - 1],
            n - 1,
        )
    }
}

/// The evaluation of a position by the trial tables: the worth for White of
/// its pieces, whoever is to move, kept within the range of a score.
pub open spec fn tuned_evaluation(squares: Seq<u8>, params: Seq<i16>) -> int {
    let material = tuned_material(squares, params, 64);
    if material > i16::MAX {
        i16::MAX as int
    } else if material < -i16::MAX {
        -i16::MAX
    } else {
        material
    }
}

/// The evaluation by the trial tables as the standing evaluation of a
/// quiescence search.
pub open spec fn tuned(params: Seq<i16>) -> Standing {
    |squares: Seq<u8>, white_to_move: bool| tuned_evaluation(squares, params)
}

/// The evaluation of a position by the trial tables.
pub fn tuned_eval(board: &Board, params: &[i16]) -> (eval: i16)
    requires
        params@.len() == PARAMS,
    ensures
        eval == tuned_evaluation(board@.squares, params@),
        -i16::MAX <= eval <= i16::MAX,
{
    let mut sum: i32 = 0;
    let mut i: u8 = 0;
    while i < 64
        invariant
            i <= 64,
            params@.len() == PARAMS,
            sum == tuned_material(board@.squares, params@, i as nat),
            -(i * 32768) <= sum <= i * 32768,
        decreases 64 - i,
    {
        let piece = board.get(i);
        if piece != pieces::NONE {
            let piece_type = pieces::get_type(piece) as usize;
            if pieces::is_white(piece) {
                sum = sum + params[piece_type * 64 + i as usize] as i32;
            } else {
                sum = sum - params[piece_type * 64 + (63 - i as usize)] as i32;
            }
        }
        i += 1;
    }
    if sum > i16::MAX as i32 {
        i16::MAX
    } else if sum < -(i16::MAX as i32) {
        -i16::MAX
    } else {
        sum as i16
    }
}

/// The quiescence search with the trial tables: the value of the position
/// for the side to move once the captures are played out, where positions
/// are evaluated by the tables given, brought into the window. It leaves the
/// position as it was.
pub fn q_search(bot: &mut Bot, alpha: i16, beta: i16, params: &[i16]) -> (eval: i16)
    requires
        old(bot).wf(),
        params@.len() == PARAMS,
        -i16::MAX <= alpha <= beta <= i16::MAX,
    ensures
        final(bot).wf(),
        final(bot).kept_from(old(bot)),
        final(bot).transposition_table == old(bot).transposition_table,
        final(bot).search_cancelled == old(bot).search_cancelled,
        final(bot).nodes == old(bot).nodes,
        final(bot).q_nodes == old(bot).q_nodes,
        final(bot).history == old(bot).history,
        final(bot).killer_moves == old(bot).killer_moves,
        eval == within(
            old(bot).board@.quiet_value_by(tuned(params@)),
            alpha as int,
            beta as int,
        ),
    decreases piece_count(old(bot).board@.squares, 64),
{
    let ghost v = bot.board@;
    let ghost standing = tuned(params@);
    let stand_pat = tuned_eval(&bot.board, params);
    let mut move_list = bot.board.get_moves(CAPTURES_ONLY);
    bot.score_move_list(&mut move_list, &MoveData::null(), &MoveData::null(), MAX_KILLER_MOVE_PLY);
    let ghost scored = move_list@;
    proof {
        assert(firsts(scored) =~= v.moves(true));
        lemma_quiet_value(v, scored, scored, standing);
    }
    if stand_pat >= beta {
        return beta;
    }
    let mut best = alpha;
    if stand_pat > best {
        best = stand_pat;
    }
    let n = move_list.len();
    let mut i: usize = 0;
    while i < n
        invariant
            i <= n,
            n == move_list@.len(),
            bot.wf(),
            bot.kept_from(old(bot)),
            v == bot.board@,
            standing == tuned(params@),
            params@.len() == PARAMS,
            bot.transposition_table == old(bot).transposition_table,
            bot.search_cancelled == old(bot).search_cancelled,
            bot.nodes == old(bot).nodes,
            bot.q_nodes == old(bot).q_nodes,
            bot.history == old(bot).history,
            bot.killer_moves == old(bot).killer_moves,
            -i16::MAX <= alpha <= best <= beta <= i16::MAX,
            firsts(scored) == v.moves(true),
            move_list@.to_multiset() == scored.to_multiset(),
            best_over(v, firsts(move_list@), i as nat, standing) < beta,
            best == within(
                best_over(v, firsts(move_list@), i as nat, standing),
                alpha as int,
                beta as int,
            ),
            forall|k: int|
                0 <= k < n ==> v.fits((#[trigger] move_list@[k]).0) && v.takes(move_list@[k].0),
        decreases n - i,
    {
        let ghost before = move_list@;
        let m = move_list.next(i);
        proof {
            assert forall|k: int| 0 <= k < n implies v.fits((#[trigger] move_list@[k]).0)
                && v.takes(move_list@[k].0) by {
                let j = choose|j: int| 0 <= j < before.len() && before[j] == move_list@[k];
                assert(v.fits(before[j].0));
            }
            lemma_best_over_prefix(v, firsts(before), firsts(move_list@), i as nat, standing);
            lemma_quiet_value(v, move_list@, scored, standing);
            assert(firsts(move_list@)[i as int] == m);
            lemma_capture_count(v, m);
            lemma_undo_make(v, m);
        }
        if bot.board.make_move(&m) {
            let eval = -q_search(bot, -beta, -best, params);
            bot.board.undo_move(&m);
            assert(eval == within(v.capture_worth(m, standing), best as int, beta as int));
            if eval >= beta {
                return beta;
            }
            if eval > best {
                best = eval;
            }
        }
        i += 1;
    }
    proof {
        lemma_quiet_value(v, move_list@, scored, standing);
    }
    best
}

/// What a game that the engine played against itself left behind.
pub struct GameRecord {
    /// The positions after the moves of the game, as text, but for the
    /// position after a move that announced a mate.
    pub positions: Vec<String>,
    /// The result of the game in half points: 1 for a game that was not
    /// decided, 2 or 0 for a game that ended with a mate score.
    pub result: u8,
}

/// The result in half points of a game that ended with a mate score: 2 if
/// the score was good for the side that then moved and White is to move
/// after that move, or bad for it and Black is to move; else 0.
pub open spec fn decided(eval: i16, white_to_move: bool) -> u8 {
    if (eval > 0) == white_to_move {
        2
    } else {
        0
    }
}

/// Lets the engine play against itself from the position that it holds, at
/// most `max_plies` moves. Each move is the best move of a search with the
/// given time for a move. The game ends when the search finds no move, when
/// it finds a mate score, or when the position after its move is a draw.
pub fn play_game(bot: &mut Bot, movetime: Option<u64>, max_plies: usize) -> (record: GameRecord)
    requires
        old(bot).wf(),
    ensures
        final(bot).wf(),
        record.positions@.len() <= max_plies,
        record.result <= 2,
        record.result != 1 ==> crate::constants::mate_score(final(bot).best_eval) && record.result
            == decided(final(bot).best_eval, final(bot).board@.white_to_move),
        final(bot).board@.states.len() <= old(bot).board@.states.len() + max_plies,
        final(bot).board@.states.len() >= old(bot).board@.states.len()
            + record.positions@.len(),
{
    let mut positions: Vec<String> = Vec::new();
    let mut result: u8 = 1;
    let mut plies: usize = 0;
    while plies < max_plies
        invariant_except_break
            positions@.len() == plies,
            result == 1,
        invariant
            plies <= max_plies,
            bot.wf(),
            bot.board@.states.len() == old(bot).board@.states.len() + plies,
        ensures
            bot.wf(),
            positions@.len() <= plies <= max_plies,
            result <= 2,
            result != 1 ==> crate::constants::mate_score(bot.best_eval) && result == decided(
                bot.best_eval,
                bot.board@.white_to_move,
            ),
            old(bot).board@.states.len() + positions@.len() <= bot.board@.states.len()
                <= old(bot).board@.states.len() + max_plies,
        decreases max_plies - plies,
    {
        bot.go(movetime, MAX_DEPTH, BotOutput::Quiet);
        let best = bot.best_move;
        if best == MoveData::null() {
            break;
        }
        let made = bot.board.make_move(&best);
        assert(made);
        if is_checkmate(bot.best_eval) {
            result = if (bot.best_eval > 0) == bot.board.white_to_move {
                2
            } else {
                0
            };
            plies += 1;
            break;
        }
        positions.push(bot.board.generate_fen());
        plies += 1;
        if bot.board.is_draw() {
            break;
        }
    }
    GameRecord { positions, result }
}

} // verus!
