//! The evaluation of a position at a leaf of the search: the worth of the
//! pieces where they stand, from the point of view of the side to move.

use vstd::prelude::*;
use crate::board::Board;
use crate::piece_square_tables::{piece_value, pst_value};
use crate::pieces;
use crate::utils::{has_bit, lemma_bit_zero, pop_lsb};

verus! {

/// The largest evaluation of a position; what the pieces are worth beyond it
/// is cut off, so that an evaluation is never a mate score.
pub const EVAL_LIMIT: i16 = 28_000;

/// The worth for White of the pieces with the given code on the squares
/// below `n`.
pub open spec fn kind_value(squares: Seq<u8>, piece: u8, n: nat) -> int
    decreases n,
{
    if n == 0 {
        0
    } else {
        kind_value(squares, piece, (n - 1) as nat) + if squares[n - 1] == piece {
            piece_value(piece, n - 1)
        } else {
            0
        }
    }
}

/// The worth for White of the pieces with a code below `kinds`.
pub open spec fn material(squares: Seq<u8>, kinds: nat) -> int
    decreases kinds,
{
    if kinds == 0 {
        0
    } else {
        material(squares, (kinds - 1) as nat) + kind_value(squares, (kinds - 1) as u8, 64)
    }
}

/// A worth brought into the range of an evaluation.
pub open spec fn limited(value: int) -> int {
    if value > EVAL_LIMIT {
        EVAL_LIMIT as int
    } else if value < -EVAL_LIMIT {
        -EVAL_LIMIT
    } else {
        value
    }
}

/// The evaluation of a position for the side to move.
pub open spec fn evaluation(squares: Seq<u8>, white_to_move: bool) -> int {
    if white_to_move {
        limited(material(squares, 12))
    } else {
        -limited(material(squares, 12))
    }
}

/// Squares that do not hold the piece add nothing to its worth.
pub proof fn lemma_kind_value_skip(squares: Seq<u8>, piece: u8, low: nat, high: nat)
    requires
        low <= high <= 64,
        forall|j: int| low <= j < high ==> squares[j] != piece,
    ensures
        kind_value(squares, piece, high) == kind_value(squares, piece, low),
    decreases high - low,
{
    if low < high {
        lemma_kind_value_skip(squares, piece, low, (high - 1) as nat);
    }
}

impl Board {
    /// 1 when White is to move, -1 when Black is.
    pub fn perspective(&self) -> (sign: i16)
        ensures
            sign == if self.white_to_move { 1i16 } else { -1i16 },
    {
        if self.white_to_move {
            1
        } else {
            -1
        }
    }

    /// The evaluation of the position for the side to move: the worth of the
    /// white pieces less that of the black ones, within `EVAL_LIMIT`, and
    /// negated when Black is to move.
    pub fn simple_eval(&self) -> (eval: i16)
        requires
            self.layout_ok(),
        ensures
            eval == evaluation(self@.squares, self.white_to_move),
            -EVAL_LIMIT <= eval <= EVAL_LIMIT,
            !crate::constants::mate_score(eval),
    {
        let ghost squares = self@.squares;
        let mut material_balance: i32 = 0;
        let mut piece: u8 = 0;
        while piece < pieces::COUNT
            invariant
                piece <= pieces::COUNT,
                self.layout_ok(),
                squares == self@.squares,
                material_balance == material(squares, piece as nat),
                -(piece * 64 * 32768) <= material_balance <= piece * 64 * 32768,
            decreases pieces::COUNT - piece,
        {
            let mut bitboard = self.piece_bitboards[piece as usize];
            let ghost all = bitboard;
            let ghost mut cursor: nat = 0;
            let ghost done = material_balance as int;
            let white = pieces::is_white(piece);
            let kind = pieces::get_type(piece);
            proof {
                assert forall|j: u8| j < 64 implies #[trigger] has_bit(all, j) == (squares[j as int]
                    == piece) by {
                    assert(squares[j as int] == crate::board::piece_on(self.piece_bitboards, j));
                }
            }
            while bitboard != 0
                invariant
                    cursor <= 64,
                    piece < pieces::COUNT,
                    kind == pieces::type_of(piece),
                    white == pieces::white_code(piece),
                    forall|j: u8|
                        j < 64 ==> #[trigger] has_bit(all, j) == (squares[j as int] == piece),
                    forall|j: u8|
                        j < 64 ==> #[trigger] has_bit(bitboard, j) == (has_bit(all, j) && j
                            >= cursor),
                    material_balance == done + kind_value(squares, piece, cursor),
                    -(piece * 64 * 32768) <= done <= piece * 64 * 32768,
                    -(cursor * 32768) <= kind_value(squares, piece, cursor) <= cursor * 32768,
                decreases 64 - cursor,
            {
                let ghost remaining = bitboard;
                let index = pop_lsb(&mut bitboard);
                proof {
                    assert(has_bit(remaining, index));
                    assert(has_bit(all, index));
                    assert forall|j: int| cursor <= j < index implies squares[j] != piece by {
                        assert(!has_bit(remaining, j as u8));
                        assert(!has_bit(all, j as u8));
                    }
                    lemma_kind_value_skip(squares, piece, cursor, index as nat);
                }
                let square: usize = if white {
                    index as usize
                } else {
                    63 - index as usize
                };
                let value = pst_value(kind, square);
                if white {
                    material_balance = material_balance + value as i32;
                } else {
                    material_balance = material_balance - value as i32;
                }
                proof {
                    cursor = (index + 1) as nat;
                }
            }
            proof {
                assert forall|j: int| cursor <= j < 64 implies squares[j] != piece by {
                    lemma_bit_zero(j as u8);
                    assert(!has_bit(bitboard, j as u8));
                    assert(!has_bit(all, j as u8));
                }
                lemma_kind_value_skip(squares, piece, cursor, 64);
            }
            piece += 1;
        }
        let limited_balance: i16 = if material_balance > EVAL_LIMIT as i32 {
            EVAL_LIMIT
        } else if material_balance < -(EVAL_LIMIT as i32) {
            -EVAL_LIMIT
        } else {
            material_balance as i16
        };
        limited_balance * self.perspective()
    }
}

} // verus!
