//! The value of a position once the captures are played out, which the
//! quiescence search computes. What the value rests on is how a position is
//! evaluated as it stands; the definitions here take that as a parameter.

use vstd::prelude::*;
use crate::draw::piece_count;
use crate::evaluation::evaluation;
use crate::move_data::MoveData;
use crate::movegen::{lemma_capture_count, lemma_moves_fit, lemma_moves_take};
use crate::position::BoardView;

verus! {

/// How a position is evaluated as it stands: a number for the squares and the
/// side to move.
pub type Standing = spec_fn(Seq<u8>, bool) -> int;

/// The evaluation by the piece-square tables.
pub open spec fn standard() -> Standing {
    |squares: Seq<u8>, white_to_move: bool| evaluation(squares, white_to_move)
}

/// The value for the side to move of the position with only the first `upto`
/// of its captures to choose from: the side may stand pat on the evaluation
/// of the position, or make one of these captures, if it is legal, and get
/// the negative of what the position after it is worth to the other side
/// with all its captures. The best of these is the value.
pub open spec fn capture_value(v: BoardView, upto: nat, standing: Standing) -> int
    decreases piece_count(v.squares, 64), upto,
    when v.wf() && upto <= v.moves(true).len()
    via capture_value_decreases
{
    if upto == 0 {
        standing(v.squares, v.white_to_move)
    } else {
        let m = v.moves(true)[upto - 1];
        let rest = capture_value(v, (upto - 1) as nat, standing);
        if v.legal(m) {
            let reply = -capture_value(v.made(m), v.made(m).moves(true).len(), standing);
            if reply > rest {
                reply
            } else {
                rest
            }
        } else {
            rest
        }
    }
}

/// Every capture leaves one piece fewer on the board, so that the value is
/// well defined.
#[via_fn]
proof fn capture_value_decreases(v: BoardView, upto: nat, standing: Standing) {
    if upto > 0 {
        let m = v.moves(true)[upto - 1];
        lemma_moves_fit(v, true, 6);
        lemma_moves_take(v, 6);
        lemma_capture_count(v, m);
    }
}

impl BoardView {
    /// The value of the position for the side to move once the captures are
    /// played out, with a given evaluation of positions as they stand.
    pub open spec fn quiet_value_by(self, standing: Standing) -> int {
        capture_value(self, self.moves(true).len(), standing)
    }

    /// The value of the position for the side to move once the captures are
    /// played out.
    pub open spec fn quiet_value(self) -> int {
        self.quiet_value_by(standard())
    }

    /// What a move is worth to the side that makes it: the negative of the
    /// value of the position after it.
    pub open spec fn capture_worth(self, m: MoveData, standing: Standing) -> int {
        -self.made(m).quiet_value_by(standing)
    }
}

/// The best of standing pat and the legal ones among the first `n` of some
/// moves.
pub open spec fn best_over(v: BoardView, moves: Seq<MoveData>, n: nat, standing: Standing) -> int
    decreases n,
{
    if n == 0 {
        standing(v.squares, v.white_to_move)
    } else {
        let rest = best_over(v, moves, (n - 1) as nat, standing);
        if v.legal(moves[n - 1]) && v.capture_worth(moves[n - 1], standing) > rest {
            v.capture_worth(moves[n - 1], standing)
        } else {
            rest
        }
    }
}

/// A value brought into a window.
pub open spec fn within(value: int, alpha: int, beta: int) -> int {
    if value >= beta {
        beta
    } else if value <= alpha {
        alpha
    } else {
        value
    }
}

/// The value with the first captures of a position is the best over them.
pub proof fn lemma_capture_value(v: BoardView, upto: nat, standing: Standing)
    requires
        v.wf(),
        upto <= v.moves(true).len(),
    ensures
        capture_value(v, upto, standing) == best_over(v, v.moves(true), upto, standing),
    decreases upto,
{
    if upto > 0 {
        lemma_capture_value(v, (upto - 1) as nat, standing);
        let m = v.moves(true)[upto - 1];
        lemma_moves_fit(v, true, 6);
        crate::position::lemma_made_wf(v, m);
    }
}

/// The best over some moves is at least the evaluation and the worth of each
/// legal one, and it is one of these.
pub proof fn lemma_best_over(v: BoardView, moves: Seq<MoveData>, n: nat, standing: Standing)
    requires
        n <= moves.len(),
    ensures
        best_over(v, moves, n, standing) >= standing(v.squares, v.white_to_move),
        forall|k: int|
            0 <= k < n && v.legal(#[trigger] moves[k]) ==> best_over(v, moves, n, standing)
                >= v.capture_worth(moves[k], standing),
        best_over(v, moves, n, standing) == standing(v.squares, v.white_to_move) || exists|k: int|
            0 <= k < n && v.legal(#[trigger] moves[k]) && best_over(v, moves, n, standing)
                == v.capture_worth(moves[k], standing),
    decreases n,
{
    if n > 0 {
        lemma_best_over(v, moves, (n - 1) as nat, standing);
        let rest = best_over(v, moves, (n - 1) as nat, standing);
        let all = best_over(v, moves, n, standing);
        if all != standing(v.squares, v.white_to_move) {
            if v.legal(moves[n - 1]) && v.capture_worth(moves[n - 1], standing) > rest {
                assert(v.legal(moves[n - 1]) && all == v.capture_worth(moves[n - 1], standing));
            } else {
                let k = choose|k: int|
                    0 <= k < n - 1 && v.legal(#[trigger] moves[k]) && rest == v.capture_worth(
                        moves[k],
                        standing,
                    );
                assert(v.legal(moves[k]) && all == v.capture_worth(moves[k], standing));
            }
        }
    }
}

/// The best over some moves does not depend on their order: two lists with
/// the same moves have the same best.
pub proof fn lemma_best_over_same(
    v: BoardView,
    first: Seq<MoveData>,
    second: Seq<MoveData>,
    standing: Standing,
)
    requires
        forall|k: int| 0 <= k < first.len() ==> second.contains(#[trigger] first[k]),
        forall|k: int| 0 <= k < second.len() ==> first.contains(#[trigger] second[k]),
    ensures
        best_over(v, first, first.len(), standing) == best_over(v, second, second.len(), standing),
{
    let a = best_over(v, first, first.len(), standing);
    let b = best_over(v, second, second.len(), standing);
    lemma_best_over(v, first, first.len(), standing);
    lemma_best_over(v, second, second.len(), standing);
    if a != standing(v.squares, v.white_to_move) {
        let k = choose|k: int|
            0 <= k < first.len() && v.legal(#[trigger] first[k]) && a == v.capture_worth(
                first[k],
                standing,
            );
        assert(second.contains(first[k]));
        let j = choose|j: int| 0 <= j < second.len() && second[j] == first[k];
        assert(v.legal(second[j]));
    }
    if b != standing(v.squares, v.white_to_move) {
        let k = choose|k: int|
            0 <= k < second.len() && v.legal(#[trigger] second[k]) && b == v.capture_worth(
                second[k],
                standing,
            );
        assert(first.contains(second[k]));
        let j = choose|j: int| 0 <= j < first.len() && first[j] == second[k];
        assert(v.legal(first[j]));
    }
}

/// The moves of a list of scored moves.
pub open spec fn firsts(list: Seq<(MoveData, i16)>) -> Seq<MoveData> {
    Seq::new(list.len(), |k: int| list[k].0)
}

/// Two lists with the same entries have the same moves.
pub proof fn lemma_firsts_same(a: Seq<(MoveData, i16)>, b: Seq<(MoveData, i16)>)
    requires
        a.to_multiset() == b.to_multiset(),
    ensures
        forall|k: int| 0 <= k < firsts(a).len() ==> firsts(b).contains(#[trigger] firsts(a)[k]),
{
    a.to_multiset_ensures();
    b.to_multiset_ensures();
    assert forall|k: int| 0 <= k < firsts(a).len() implies firsts(b).contains(
        #[trigger] firsts(a)[k],
    ) by {
        assert(a.contains(a[k]));
        assert(b.to_multiset().count(a[k]) > 0);
        assert(b.contains(a[k]));
        let j = choose|j: int| 0 <= j < b.len() && b[j] == a[k];
        assert(firsts(b)[j] == firsts(a)[k]);
    }
}

/// The best over the first moves of a list depends on those moves only.
pub proof fn lemma_best_over_prefix(
    v: BoardView,
    a: Seq<MoveData>,
    b: Seq<MoveData>,
    n: nat,
    standing: Standing,
)
    requires
        n <= a.len(),
        n <= b.len(),
        forall|k: int| 0 <= k < n ==> a[k] == b[k],
    ensures
        best_over(v, a, n, standing) == best_over(v, b, n, standing),
    decreases n,
{
    if n > 0 {
        lemma_best_over_prefix(v, a, b, (n - 1) as nat, standing);
    }
}

/// The value of a position is the best over its captures in any order.
pub proof fn lemma_quiet_value(
    v: BoardView,
    list: Seq<(MoveData, i16)>,
    scored: Seq<(MoveData, i16)>,
    standing: Standing,
)
    requires
        v.wf(),
        list.to_multiset() == scored.to_multiset(),
        firsts(scored) == v.moves(true),
    ensures
        v.quiet_value_by(standing) == best_over(v, firsts(list), list.len(), standing),
        v.quiet_value_by(standing) >= standing(v.squares, v.white_to_move),
        forall|k: int|
            0 <= k < list.len() && v.legal((#[trigger] list[k]).0) ==> v.quiet_value_by(standing)
                >= v.capture_worth(list[k].0, standing),
{
    lemma_capture_value(v, v.moves(true).len(), standing);
    lemma_firsts_same(list, scored);
    lemma_firsts_same(scored, list);
    lemma_best_over_same(v, firsts(list), firsts(scored), standing);
    lemma_best_over(v, firsts(list), list.len(), standing);
    assert forall|k: int|
        0 <= k < list.len() && v.legal((#[trigger] list[k]).0) implies v.quiet_value_by(standing)
        >= v.capture_worth(list[k].0, standing) by {
        assert(firsts(list)[k] == list[k].0);
    }
}

} // verus!
