//! Positions that count as drawn: by the fifty-move rule, for want of
//! material, or because the position has occurred before.

use vstd::prelude::*;
use crate::board::Board;
use crate::move_data::flag;
use crate::move_data::MoveData;
use crate::pieces;
use crate::position::{lemma_occupancy, state_after, BoardView};
use crate::utils::{
    bit_count,
    count_ones,
    has_bit,
    lemma_bit_or,
    lemma_bit_zero,
    lemma_nonzero_has_bit,
};

verus! {

/// The number of plies without capture or pawn move from which a position is
/// drawn.
pub const FIFTY_MOVE_PLIES: u8 = 100;

/// The number of pieces on the squares below `n`.
pub open spec fn piece_count(squares: Seq<u8>, n: nat) -> nat
    decreases n,
{
    if n == 0 {
        0
    } else {
        piece_count(squares, (n - 1) as nat) + if squares[n - 1] != pieces::NONE {
            1nat
        } else {
            0nat
        }
    }
}

/// Whether a piece is a pawn, a rook or a queen.
pub open spec fn mating_piece(piece: u8) -> bool {
    piece < 12 && (pieces::type_of(piece) == pieces::PAWN || pieces::type_of(piece)
        == pieces::ROOK || pieces::type_of(piece) == pieces::QUEEN)
}

/// Changing what stands on one square changes the number of pieces by what
/// comes and what goes.
pub proof fn lemma_piece_count_update(squares: Seq<u8>, i: int, piece: u8, n: nat)
    requires
        0 <= i < squares.len(),
        n <= squares.len(),
    ensures
        piece_count(squares.update(i, piece), n) == piece_count(squares, n) + if i < n {
            (if piece != pieces::NONE { 1int } else { 0int }) - (if squares[i] != pieces::NONE {
                1int
            } else {
                0int
            })
        } else {
            0int
        },
    decreases n,
{
    if n > 0 {
        lemma_piece_count_update(squares, i, piece, (n - 1) as nat);
    }
}

/// The squares on the board of the occupied squares are as many as the
/// pieces.
proof fn lemma_piece_count(squares: Seq<u8>, occupied: u64, n: nat)
    requires
        n <= 64,
        forall|j: u8| j < 64
            ==> #[trigger] has_bit(occupied, j) == (squares[j as int] != pieces::NONE),
    ensures
        bit_count(occupied, n) == piece_count(squares, n),
    decreases n,
{
    if n > 0 {
        lemma_piece_count(squares, occupied, (n - 1) as nat);
        assert(has_bit(occupied, (n - 1) as u8) == (squares[n - 1] != pieces::NONE));
    }
}

impl BoardView {
    /// Whether neither side can mate: two pieces stand on the board, or three
    /// of which none is a pawn, a rook or a queen.
    pub open spec fn insufficient_material(self) -> bool {
        let count = piece_count(self.squares, 64);
        count == 2 || (count == 3 && forall|i: int|
            0 <= i < 64 ==> !mating_piece(#[trigger] self.squares[i]))
    }

    /// Whether the current key stood on the stack of keys an even number of
    /// plies ago, no further back than the last capture or pawn move.
    pub open spec fn is_repetition(self) -> bool {
        exists|back: int|
            2 <= back <= self.state().halfmove_clock && back < self.keys.len() && back % 2 == 0
                && #[trigger] self.keys[self.keys.len() - 1 - back] == self.key()
    }

    /// Whether the position counts as drawn.
    pub open spec fn is_draw(self) -> bool {
        self.state().halfmove_clock >= FIFTY_MOVE_PLIES || self.insufficient_material()
            || self.is_repetition()
    }
}

/// Whether a move takes nothing and moves no pawn, so that the clock of the
/// fifty-move rule runs on.
pub open spec fn keeps_clock(v: BoardView, m: MoveData) -> bool {
    m.flag != flag::EN_PASSANT && v.squares[m.to as int] == pieces::NONE && pieces::type_of(
        m.piece,
    ) != pieces::PAWN
}

/// Once the clock stands at 99 plies or more, a move that takes nothing and
/// moves no pawn leads to a position that is drawn by the clock.
pub proof fn lemma_clock_runs_out(v: BoardView, m: MoveData)
    requires
        v.state().halfmove_clock >= FIFTY_MOVE_PLIES - 1,
        keeps_clock(v, m),
    ensures
        v.made(m).is_draw(),
{
    assert(v.made(m).state() == state_after(v.squares, v.state(), m, v.white_to_move));
}

impl Board {
    /// Whether neither side has the material to mate.
    pub fn insufficient_checkmating_material(&self) -> (insufficient: bool)
        requires
            self.layout_ok(),
        ensures
            insufficient == self@.insufficient_material(),
    {
        let occupied_board = self.occupied_bitboard();
        let occupied = count_ones(occupied_board);
        let ghost squares = self@.squares;
        proof {
            lemma_occupancy(squares);
            lemma_piece_count(squares, occupied_board, 64);
        }
        if occupied == 2 {
            true
        } else if occupied == 3 {
            let white_pawns = self.piece_bitboards[pieces::WHITE_PAWN as usize];
            let black_pawns = self.piece_bitboards[pieces::BLACK_PAWN as usize];
            let white_rooks = self.piece_bitboards[pieces::WHITE_ROOK as usize];
            let black_rooks = self.piece_bitboards[pieces::BLACK_ROOK as usize];
            let white_queens = self.piece_bitboards[pieces::WHITE_QUEEN as usize];
            let black_queens = self.piece_bitboards[pieces::BLACK_QUEEN as usize];
            let mating = white_pawns | black_pawns | white_rooks | black_rooks | white_queens
                | black_queens;
            proof {
                assert forall|j: u8| j < 64 implies #[trigger] has_bit(mating, j) == mating_piece(
                    squares[j as int],
                ) by {
                    lemma_bit_or(white_pawns, black_pawns, j);
                    lemma_bit_or(white_pawns | black_pawns, white_rooks, j);
                    lemma_bit_or(white_pawns | black_pawns | white_rooks, black_rooks, j);
                    lemma_bit_or(
                        white_pawns | black_pawns | white_rooks | black_rooks,
                        white_queens,
                        j,
                    );
                    lemma_bit_or(
                        white_pawns | black_pawns | white_rooks | black_rooks | white_queens,
                        black_queens,
                        j,
                    );
                    assert(squares[j as int] == crate::board::piece_on(self.piece_bitboards, j));
                }
                lemma_nonzero_has_bit(mating);
                if mating == 0 {
                    assert forall|i: int| 0 <= i < 64 implies !mating_piece(
                        #[trigger] squares[i],
                    ) by {
                        lemma_bit_zero(i as u8);
                        assert(!has_bit(mating, i as u8));
                    }
                } else {
                    let first = mating.trailing_zeros() as u8;
                    assert(has_bit(mating, first));
                    assert(mating_piece(squares[first as int]));
                }
            }
            mating == 0
        } else {
            false
        }
    }

    /// Whether the position has occurred before since the last capture or
    /// pawn move, with the same side to move.
    pub fn is_repetition(&self) -> (repeated: bool)
        requires
            self.history.wf(),
            self.zobrist.key.wf(),
        ensures
            repeated == self@.is_repetition(),
    {
        let halfmove_clock = self.history.peek().halfmove_clock as usize;
        let index = self.zobrist.key.index;
        let current_key = self.zobrist.key.peek();
        let limit = if halfmove_clock < index { halfmove_clock } else { index };
        let ghost v = self@;
        assert(v.keys.len() == index + 1);
        let mut back: usize = 2;
        while back <= limit
            invariant
                2 <= back <= limit + 2,
                back % 2 == 0,
                limit <= index,
                limit <= halfmove_clock,
                limit == halfmove_clock || limit == index,
                index < self.zobrist.key.history@.len(),
                index == self.zobrist.key.index,
                v == self@,
                v.keys.len() == index + 1,
                current_key == v.key(),
                halfmove_clock == v.state().halfmove_clock,
                forall|earlier: int|
                    2 <= earlier < back && earlier % 2 == 0 ==> #[trigger] v.keys[v.keys.len() - 1
                        - earlier] != current_key,
            decreases limit + 2 - back,
        {
            if self.zobrist.key.history[index - back] == current_key {
                proof {
                    assert(v.keys[v.keys.len() - 1 - back] == current_key);
                }
                return true;
            }
            back += 2;
        }
        false
    }

    /// Whether the position counts as drawn: fifty moves without capture or
    /// pawn move, too little material to mate, or a repeated position.
    pub fn is_draw(&self) -> (draw: bool)
        requires
            self.layout_ok(),
            self.history.wf(),
            self.zobrist.key.wf(),
        ensures
            draw == self@.is_draw(),
    {
        self.history.peek().halfmove_clock >= FIFTY_MOVE_PLIES
            || self.insufficient_checkmating_material() || self.is_repetition()
    }
}

/// Whether a position counts as drawn does not change when a move is made
/// and taken back.
pub proof fn lemma_draw_stable(v: BoardView, m: crate::move_data::MoveData)
    requires
        v.wf(),
        v.fits(m),
    ensures
        v.made(m).undone(m).is_draw() == v.is_draw(),
{
    crate::position::lemma_undo_make(v, m);
}

} // verus!
