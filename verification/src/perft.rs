//! Counting the positions that can be reached in a given number of moves,
//! which tests move generation against known counts.

use vstd::prelude::*;
use crate::board::Board;
use crate::move_data::MoveData;
use crate::movegen::ALL_MOVES;
use crate::position::{king_attacked, lemma_undo_make, BoardView};

verus! {

/// The counts of a count of positions.
pub struct PerftResults {
    pub total_nodes: u128,
    pub leaf_nodes: u128,
}

impl BoardView {
    /// Whether a move leaves the king of the side that makes it safe.
    pub open spec fn legal(self, m: MoveData) -> bool {
        !king_attacked(self.made(m).squares, self.white_to_move)
    }

    /// Whether none of the moves of the side to move is legal.
    pub open spec fn has_no_legal_move(self) -> bool {
        forall|k: int| 0 <= k < self.moves(false).len()
            ==> !self.legal(#[trigger] self.moves(false)[k])
    }

    /// The number of lines of `depth` legal moves that start with one of the
    /// first `upto` generated moves; 1 for depth 0.
    pub open spec fn leaf_count(self, depth: nat, upto: nat) -> nat
        decreases depth, upto,
    {
        if depth == 0 {
            1
        } else if upto == 0 {
            0
        } else {
            let m = self.moves(false)[upto - 1];
            self.leaf_count(depth, (upto - 1) as nat) + if self.legal(m) {
                self.made(m).leaf_count((depth - 1) as nat, self.made(m).moves(false).len())
            } else {
                0
            }
        }
    }

    /// The number of positions that lines of up to `depth` legal moves reach
    /// when they start with one of the first `upto` generated moves.
    pub open spec fn node_count(self, depth: nat, upto: nat) -> nat
        decreases depth, upto,
    {
        if depth == 0 || upto == 0 {
            0
        } else {
            let m = self.moves(false)[upto - 1];
            self.node_count(depth, (upto - 1) as nat) + if self.legal(m) {
                1 + self.made(m).node_count((depth - 1) as nat, self.made(m).moves(false).len())
            } else {
                0
            }
        }
    }

    /// The number of lines of `depth` legal moves from the position.
    pub open spec fn leaves(self, depth: nat) -> nat {
        self.leaf_count(depth, self.moves(false).len())
    }

    /// The number of positions that lines of up to `depth` legal moves from
    /// the position reach, the position itself not counted.
    pub open spec fn nodes(self, depth: nat) -> nat {
        self.node_count(depth, self.moves(false).len())
    }
}

impl Board {
    /// Whether the side to move has a legal move. The board is left as it
    /// was.
    pub fn has_legal_move(&mut self) -> (found: bool)
        requires
            old(self).wf(),
        ensures
            final(self).wf(),
            final(self)@ == old(self)@,
            found == !old(self)@.has_no_legal_move(),
    {
        let ghost v = self@;
        let ghost moves = v.moves(false);
        let move_list = self.get_moves(ALL_MOVES);
        let n = move_list.len();
        let mut i: usize = 0;
        while i < n
            invariant
                i <= n,
                n == moves.len(),
                moves == v.moves(false),
                move_list@ == crate::movegen::unscored(moves),
                self.wf(),
                self@ == v,
                v == old(self)@,
                forall|k: int| 0 <= k < n ==> v.fits((#[trigger] move_list@[k]).0),
                forall|k: int| 0 <= k < i ==> !v.legal(#[trigger] moves[k]),
            decreases n - i,
        {
            let m = move_list.moves[i].0;
            proof {
                assert(m == moves[i as int]);
                assert(v.fits(move_list@[i as int].0));
                lemma_undo_make(v, m);
            }
            if self.make_move(&m) {
                self.undo_move(&m);
                assert(v.legal(v.moves(false)[i as int]));
                return true;
            }
            i += 1;
        }
        false
    }
}

/// A count as a counter holds it: counters stop at their largest value.
pub open spec fn counted(count: int) -> u128 {
    if count > u128::MAX {
        u128::MAX
    } else {
        count as u128
    }
}

/// A counter that has stopped stays stopped: counting on from a count gives
/// the count of the whole.
proof fn lemma_counted(x: int, c: int)
    requires
        x >= 0,
        c >= 0,
    ensures
        counted(counted(x) + c) == counted(x + c),
{
}

/// Adds to a counter, which stops at its largest value.
fn count_up(counter: u128, more: u128) -> (sum: u128)
    ensures
        sum == counted(counter + more),
{
    if counter > u128::MAX - more {
        u128::MAX
    } else {
        counter + more
    }
}

/// Counts the positions that lines of `depth` legal moves from the position
/// reach: those at their ends as leaves, and all of them as nodes. A call
/// that is not at the root counts its own position as a node too. The board
/// is left as it was.
pub fn perft(board: &mut Board, depth: u8, results: &mut PerftResults, root: bool)
    requires
        old(board).wf(),
    ensures
        final(board).wf(),
        final(board)@ == old(board)@,
        final(results).leaf_nodes == counted(
            old(results).leaf_nodes + old(board)@.leaves(depth as nat),
        ),
        final(results).total_nodes == counted(
            old(results).total_nodes + old(board)@.nodes(depth as nat) + if root {
                0int
            } else {
                1int
            },
        ),
    decreases depth,
{
    if !root {
        results.total_nodes = count_up(results.total_nodes, 1);
    }
    if depth == 0 {
        results.leaf_nodes = count_up(results.leaf_nodes, 1);
        return;
    }
    let ghost v = board@;
    let ghost moves = v.moves(false);
    let ghost own: int = if root { 0 } else { 1 };
    let move_list = board.get_moves(ALL_MOVES);
    let n = move_list.len();
    assert(n == moves.len());
    let mut i: usize = 0;
    while i < n
        invariant
            i <= n,
            n == moves.len(),
            depth > 0,
            own == if root { 0int } else { 1int },
            moves == v.moves(false),
            move_list@ == crate::movegen::unscored(moves),
            board.wf(),
            board@ == v,
            forall|k: int| 0 <= k < n ==> v.fits((#[trigger] move_list@[k]).0),
            results.leaf_nodes == counted(
                old(results).leaf_nodes + v.leaf_count(depth as nat, i as nat),
            ),
            results.total_nodes == counted(
                old(results).total_nodes + v.node_count(depth as nat, i as nat) + own,
            ),
        decreases n - i,
    {
        let m = move_list.moves[i].0;
        proof {
            assert(m == moves[i as int]);
            assert(v.fits(move_list@[i as int].0));
            lemma_undo_make(v, m);
            assert(v.node_count(depth as nat, (i + 1) as nat) == v.node_count(
                depth as nat,
                i as nat,
            ) + if v.legal(m) {
                1 + v.made(m).nodes((depth - 1) as nat)
            } else {
                0
            });
            assert(v.leaf_count(depth as nat, (i + 1) as nat) == v.leaf_count(
                depth as nat,
                i as nat,
            ) + if v.legal(m) {
                v.made(m).leaves((depth - 1) as nat)
            } else {
                0
            });
        }
        if board.make_move(&m) {
            perft(board, depth - 1, results, false);
            board.undo_move(&m);
            proof {
                lemma_counted(
                    old(results).total_nodes + v.node_count(depth as nat, i as nat) + own,
                    (v.made(m).nodes((depth - 1) as nat) + 1) as int,
                );
                lemma_counted(
                    old(results).leaf_nodes + v.leaf_count(depth as nat, i as nat),
                    v.made(m).leaves((depth - 1) as nat) as int,
                );
            }
        }
        i += 1;
    }
}

} // verus!
