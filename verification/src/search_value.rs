//! What the search computes when nothing outside the position sways it: the
//! value of a position searched to a depth, by the rules of the game alone.

use vstd::prelude::*;
use crate::constants::CHECKMATE;
use crate::evaluation::{evaluation, EVAL_LIMIT};
use crate::move_data::MoveData;
use crate::movegen::lemma_moves_fit;
use crate::position::{lemma_made_wf, BoardView};
use crate::quiescence::{capture_value, standard, within};

verus! {

/// The largest number of plies from the root that a count of plies can
/// hold. A position that far from the root is searched like any other, but
/// its moves are not searched further: if it has a legal move, it is worth
/// what it is worth once the captures are played out.
pub const MAX_PLY: u8 = u8::MAX;

/// What stands for "no move yet" where the best of some moves is sought: a
/// number below every value.
pub const NO_VALUE: i16 = i16::MIN;

/// The score of a position in which the side to move has no legal move, seen
/// `ply` plies from the root: mated if it is in check, drawn if not.
pub open spec fn terminal_score(in_check: bool, ply: int) -> int {
    if in_check {
        -(CHECKMATE - ply)
    } else {
        0
    }
}

/// The depth to which a position is searched: one more than asked for if the
/// side to move is in check.
pub open spec fn extended(depth: nat, in_check: bool) -> nat {
    if in_check && depth < u8::MAX {
        depth + 1
    } else {
        depth
    }
}

/// The value for the side to move of a position `ply` plies from the root,
/// searched to `depth`. Away from the root a drawn position is worth 0. At
/// depth 0 the position is worth what it is worth once the captures are
/// played out. A side without a legal move is mated or stalemated, however
/// far from the root. Otherwise the position is worth the best that a legal
/// move leads to: the negative of the value, one ply on and one less deep,
/// of the position after the move; only where the count of plies can go no
/// further, it is worth what it is worth once the captures are played out.
pub open spec fn node_value(v: BoardView, depth: nat, ply: nat) -> int
    decreases MAX_PLY - ply, v.moves(false).len() + 1,
{
    let deeper = extended(depth, v.in_check());
    if ply > 0 && v.is_draw() {
        0
    } else if deeper == 0 {
        v.quiet_value()
    } else if v.has_no_legal_move() {
        terminal_score(v.in_check(), ply as int)
    } else if ply >= MAX_PLY {
        v.quiet_value()
    } else {
        best_reply(v, v.moves(false), v.moves(false).len(), (deeper - 1) as nat, ply)
    }
}

/// The best that the legal ones among the first `n` of some moves lead to
/// from a position `ply` plies from the root, when the positions after them
/// are searched to `depth`; `NO_VALUE` if none of them is legal.
pub open spec fn best_reply(
    v: BoardView,
    moves: Seq<MoveData>,
    n: nat,
    depth: nat,
    ply: nat,
) -> int
    decreases MAX_PLY - ply, n,
{
    if n == 0 || ply >= MAX_PLY {
        NO_VALUE as int
    } else {
        let rest = best_reply(v, moves, (n - 1) as nat, depth, ply);
        let m = moves[n - 1];
        if v.legal(m) && -node_value(v.made(m), depth, ply + 1) > rest {
            -node_value(v.made(m), depth, ply + 1)
        } else {
            rest
        }
    }
}

/// What a move is worth to the side that makes it when the position after it
/// is searched to `depth`.
pub open spec fn reply_worth(v: BoardView, m: MoveData, depth: nat, ply: nat) -> int {
    -node_value(v.made(m), depth, ply + 1)
}

/// The best of some moves is at least the worth of each legal one, and it is
/// the worth of one of them unless none is legal.
pub proof fn lemma_best_reply(v: BoardView, moves: Seq<MoveData>, n: nat, depth: nat, ply: nat)
    requires
        n <= moves.len(),
        ply < MAX_PLY,
    ensures
        best_reply(v, moves, n, depth, ply) >= NO_VALUE,
        forall|k: int|
            0 <= k < n && v.legal(#[trigger] moves[k]) ==> best_reply(v, moves, n, depth, ply)
                >= reply_worth(v, moves[k], depth, ply),
        best_reply(v, moves, n, depth, ply) == NO_VALUE || exists|k: int|
            0 <= k < n && v.legal(#[trigger] moves[k]) && best_reply(v, moves, n, depth, ply)
                == reply_worth(v, moves[k], depth, ply),
    decreases n,
{
    if n > 0 {
        lemma_best_reply(v, moves, (n - 1) as nat, depth, ply);
        let rest = best_reply(v, moves, (n - 1) as nat, depth, ply);
        let all = best_reply(v, moves, n, depth, ply);
        if all != NO_VALUE {
            if v.legal(moves[n - 1]) && reply_worth(v, moves[n - 1], depth, ply) > rest {
                assert(v.legal(moves[n - 1]) && all == reply_worth(v, moves[n - 1], depth, ply));
            } else {
                let k = choose|k: int|
                    0 <= k < n - 1 && v.legal(#[trigger] moves[k]) && rest == reply_worth(
                        v,
                        moves[k],
                        depth,
                        ply,
                    );
                assert(v.legal(moves[k]) && all == reply_worth(v, moves[k], depth, ply));
            }
        }
    }
}

/// The best of the first moves of a list depends on those moves only.
pub proof fn lemma_best_reply_prefix(
    v: BoardView,
    a: Seq<MoveData>,
    b: Seq<MoveData>,
    n: nat,
    depth: nat,
    ply: nat,
)
    requires
        n <= a.len(),
        n <= b.len(),
        forall|k: int| 0 <= k < n ==> a[k] == b[k],
    ensures
        best_reply(v, a, n, depth, ply) == best_reply(v, b, n, depth, ply),
    decreases n,
{
    if n > 0 {
        lemma_best_reply_prefix(v, a, b, (n - 1) as nat, depth, ply);
    }
}

/// The best of some moves does not depend on their order.
pub proof fn lemma_best_reply_same(
    v: BoardView,
    first: Seq<MoveData>,
    second: Seq<MoveData>,
    depth: nat,
    ply: nat,
)
    requires
        ply < MAX_PLY,
        forall|k: int| 0 <= k < first.len() ==> second.contains(#[trigger] first[k]),
        forall|k: int| 0 <= k < second.len() ==> first.contains(#[trigger] second[k]),
    ensures
        best_reply(v, first, first.len(), depth, ply) == best_reply(
            v,
            second,
            second.len(),
            depth,
            ply,
        ),
{
    let a = best_reply(v, first, first.len(), depth, ply);
    let b = best_reply(v, second, second.len(), depth, ply);
    lemma_best_reply(v, first, first.len(), depth, ply);
    lemma_best_reply(v, second, second.len(), depth, ply);
    if a != NO_VALUE {
        let k = choose|k: int|
            0 <= k < first.len() && v.legal(#[trigger] first[k]) && a == reply_worth(
                v,
                first[k],
                depth,
                ply,
            );
        assert(second.contains(first[k]));
        let j = choose|j: int| 0 <= j < second.len() && second[j] == first[k];
        assert(v.legal(second[j]));
    }
    if b != NO_VALUE {
        let k = choose|k: int|
            0 <= k < second.len() && v.legal(#[trigger] second[k]) && b == reply_worth(
                v,
                second[k],
                depth,
                ply,
            );
        assert(first.contains(second[k]));
        let j = choose|j: int| 0 <= j < first.len() && first[j] == second[k];
        assert(v.legal(first[j]));
    }
}

/// The value of a position once the captures are played out is an
/// evaluation: it lies within `EVAL_LIMIT`.
pub proof fn lemma_capture_value_range(v: BoardView, upto: nat)
    requires
        v.wf(),
        upto <= v.moves(true).len(),
    ensures
        -EVAL_LIMIT <= capture_value(v, upto, standard()) <= EVAL_LIMIT,
    decreases crate::draw::piece_count(v.squares, 64), upto,
{
    if upto > 0 {
        let m = v.moves(true)[upto - 1];
        lemma_moves_fit(v, true, 6);
        crate::movegen::lemma_moves_take(v, 6);
        lemma_made_wf(v, m);
        crate::movegen::lemma_capture_count(v, m);
        lemma_capture_value_range(v, (upto - 1) as nat);
        lemma_capture_value_range(v.made(m), v.made(m).moves(true).len());
    }
}

/// The value of a position `ply` plies from the root lies between being
/// mated there and mating with the next move.
pub proof fn lemma_node_value_range(v: BoardView, depth: nat, ply: nat)
    requires
        v.wf(),
        ply <= MAX_PLY,
    ensures
        -(CHECKMATE - ply) <= node_value(v, depth, ply) <= CHECKMATE - ply - 1,
    decreases MAX_PLY - ply,
{
    let deeper = extended(depth, v.in_check());
    lemma_capture_value_range(v, v.moves(true).len());
    if !(ply > 0 && v.is_draw()) && !(ply >= MAX_PLY || deeper == 0)
        && !v.has_no_legal_move() {
        let moves = v.moves(false);
        let d = (deeper - 1) as nat;
        lemma_best_reply(v, moves, moves.len(), d, ply);
        lemma_moves_fit(v, false, 6);
        let legal = choose|k: int| 0 <= k < moves.len() && v.legal(#[trigger] moves[k]);
        lemma_made_wf(v, moves[legal]);
        lemma_node_value_range(v.made(moves[legal]), d, ply + 1);
        let best = best_reply(v, moves, moves.len(), d, ply);
        assert(best >= reply_worth(v, moves[legal], d, ply));
        let k = choose|k: int|
            0 <= k < moves.len() && v.legal(#[trigger] moves[k]) && best == reply_worth(
                v,
                moves[k],
                d,
                ply,
            );
        lemma_made_wf(v, moves[k]);
        lemma_node_value_range(v.made(moves[k]), d, ply + 1);
    }
}

/// Negating a value and its window negates the value in the window.
pub proof fn lemma_within_negated(value: int, alpha: int, beta: int)
    requires
        alpha <= beta,
    ensures
        within(-value, alpha, beta) == -within(value, -beta, -alpha),
{
}

/// A result that says of a value what a narrowed window lets it say, says of
/// it what the whole window lets it say, if the window was narrowed to the
/// range in which the value lies.
pub proof fn lemma_narrowed_window(
    result: int,
    value: int,
    alpha: int,
    beta: int,
    low: int,
    high: int,
)
    requires
        alpha < beta,
        low < high,
        low <= value <= high,
        ({
            let a = if alpha < low { low } else { alpha };
            let b = if beta > high { high } else { beta };
            if a < b {
                a <= result <= b && within(result, a, b) == within(value, a, b)
            } else {
                result == a
            }
        }),
    ensures
        within(result, alpha, beta) == within(value, alpha, beta),
{
}

/// Whether a result says of a value what a window lets it say: brought into
/// the window, the two are the same.
pub open spec fn agrees(result: int, value: int, alpha: int, beta: int) -> bool {
    within(result, alpha, beta) == within(value, alpha, beta)
}

/// Whether a result within a narrowed window that agrees with the value there
/// agrees with it in the whole window.
pub open spec fn answers_for(
    value: int,
    alpha_given: int,
    beta_given: int,
    alpha: int,
    beta: int,
) -> bool {
    forall|result: int|
        alpha <= result <= beta && #[trigger] agrees(result, value, alpha, beta) ==> agrees(
            result,
            value,
            alpha_given,
            beta_given,
        )
}

/// A window narrowed to the range in which the value lies answers for the
/// whole window.
pub proof fn lemma_answers_for(
    value: int,
    alpha_given: int,
    beta_given: int,
    low: int,
    high: int,
    alpha: int,
    beta: int,
)
    requires
        alpha_given < beta_given,
        low < high,
        low <= value <= high,
        alpha == if alpha_given < low { low } else { alpha_given },
        beta == if beta_given > high { high } else { beta_given },
        alpha < beta,
    ensures
        answers_for(value, alpha_given, beta_given, alpha, beta),
{
    assert forall|result: int|
        alpha <= result <= beta && #[trigger] agrees(result, value, alpha, beta) implies agrees(
        result,
        value,
        alpha_given,
        beta_given,
    ) by {
        lemma_narrowed_window(result, value, alpha_given, beta_given, low, high);
    }
}

/// One move of the search of a node. Before it, `alpha` is the best of the
/// moves so far, or the bound of the window if none was better; after it the
/// same holds with the new move, unless the move is worth `beta` or more.
pub proof fn lemma_search_step(start: int, alpha: int, beta: int, best: int, worth: int, eval: int)
    requires
        best < beta,
        alpha < beta,
        alpha == if best > start { best } else { start },
        agrees(eval, worth, alpha, beta),
    ensures
        eval >= beta ==> worth >= beta,
        eval < beta ==> worth < beta && (if eval > alpha { eval } else { alpha }) == (if (if worth
            > best { worth } else { best }) > start {
            if worth > best {
                worth
            } else {
                best
            }
        } else {
            start
        }) && (best > start || eval > alpha) == ((if worth > best { worth } else { best })
            > start),
{
}

/// What the value of a position is where the search tries the moves.
pub proof fn lemma_node_value_of_moves(v: BoardView, depth: nat, ply: nat)
    requires
        !(ply > 0 && v.is_draw()),
        extended(depth, v.in_check()) > 0,
    ensures
        v.has_no_legal_move() ==> node_value(v, depth, ply) == terminal_score(
            v.in_check(),
            ply as int,
        ),
        !v.has_no_legal_move() && ply >= MAX_PLY ==> node_value(v, depth, ply) == v.quiet_value(),
        !v.has_no_legal_move() && ply < MAX_PLY ==> node_value(v, depth, ply) == best_reply(
            v,
            v.moves(false),
            v.moves(false).len(),
            (extended(depth, v.in_check()) - 1) as nat,
            ply,
        ),
{
}

/// What the value of a position is where the search goes on to the
/// captures.
pub proof fn lemma_node_value_quiet(v: BoardView, depth: nat, ply: nat)
    requires
        !(ply > 0 && v.is_draw()),
        extended(depth, v.in_check()) == 0,
    ensures
        node_value(v, depth, ply) == v.quiet_value(),
{
}

} // verus!
