//! Piece-square tables: the worth of each kind of piece on each square, the
//! worth of the piece itself included. The tables are written for White, the
//! eighth rank first; a black piece reads them from the other end.

use vstd::prelude::*;
use crate::pieces;

verus! {

pub const MG_PAWN_PST: [i16; 64] = [
    100, 100, 100, 100, 100, 100, 100, 100,
    150, 150, 150, 150, 150, 150, 150, 150,
    110, 110, 120, 130, 130, 120, 110, 110,
    105, 105, 110, 125, 125, 110, 105, 105,
    100, 100, 100, 120, 120, 100, 100, 100,
    105, 95, 90, 100, 100, 90, 95, 105,
    105, 110, 110, 80, 80, 110, 110, 105,
    100, 100, 100, 100, 100, 100, 100, 100,
];

pub const MG_KNIGHT_PST: [i16; 64] = [
    270, 280, 290, 290, 290, 290, 280, 270,
    280, 300, 320, 320, 320, 320, 300, 280,
    290, 320, 330, 335, 335, 330, 320, 290,
    290, 325, 335, 340, 340, 335, 325, 290,
    290, 320, 335, 340, 340, 335, 320, 290,
    290, 325, 330, 335, 335, 330, 325, 290,
    280, 300, 320, 325, 325, 320, 300, 280,
    270, 280, 290, 290, 290, 290, 280, 270,
];

pub const MG_BISHOP_PST: [i16; 64] = [
    310, 320, 320, 320, 320, 320, 320, 310,
    320, 330, 330, 330, 330, 330, 330, 320,
    320, 330, 335, 340, 340, 335, 330, 320,
    320, 335, 335, 340, 340, 335, 335, 320,
    320, 330, 340, 340, 340, 340, 330, 320,
    320, 340, 340, 340, 340, 340, 340, 320,
    320, 335, 330, 330, 330, 330, 335, 320,
    310, 320, 320, 320, 320, 320, 320, 310,
];

pub const MG_ROOK_PST: [i16; 64] = [
    500, 500, 500, 500, 500, 500, 500, 500,
    505, 510, 510, 510, 510, 510, 510, 505,
    495, 500, 500, 500, 500, 500, 500, 495,
    495, 500, 500, 500, 500, 500, 500, 495,
    495, 500, 500, 500, 500, 500, 500, 495,
    495, 500, 500, 500, 500, 500, 500, 495,
    495, 500, 500, 500, 500, 500, 500, 495,
    500, 500, 500, 505, 505, 500, 500, 500,
];

pub const MG_QUEEN_PST: [i16; 64] = [
    880, 890, 890, 895, 895, 890, 890, 880,
    890, 900, 900, 900, 900, 900, 900, 890,
    890, 900, 905, 905, 905, 905, 900, 890,
    895, 900, 905, 905, 905, 905, 900, 895,
    900, 900, 905, 905, 905, 905, 900, 895,
    890, 905, 905, 905, 905, 905, 900, 890,
    890, 900, 905, 900, 900, 900, 900, 890,
    880, 890, 890, 895, 895, 890, 890, 880,
];

pub const MG_KING_PST: [i16; 64] = [
    -30, -40, -40, -50, -50, -40, -40, -30,
    -30, -40, -40, -50, -50, -40, -40, -30,
    -30, -40, -40, -50, -50, -40, -40, -30,
    -30, -40, -40, -50, -50, -40, -40, -30,
    -20, -30, -30, -40, -40, -30, -30, -20,
    -10, -20, -20, -20, -20, -20, -20, -10,
    20, 20, 0, 0, 0, 0, 20, 20,
    20, 30, 10, 0, 0, 10, 30, 20,
];

/// The worth of a kind of piece on a square, read from White's side.
pub open spec fn table_value(kind: u8, square: int) -> i16 {
    if kind == pieces::PAWN {
        MG_PAWN_PST[square]
    } else if kind == pieces::KNIGHT {
        MG_KNIGHT_PST[square]
    } else if kind == pieces::BISHOP {
        MG_BISHOP_PST[square]
    } else if kind == pieces::ROOK {
        MG_ROOK_PST[square]
    } else if kind == pieces::QUEEN {
        MG_QUEEN_PST[square]
    } else {
        MG_KING_PST[square]
    }
}

/// The worth of a piece on a square for White: that of its kind on the square
/// for a white piece; for a black one, the negative of that of its kind on
/// the square seen from the other end of the board.
pub open spec fn piece_value(piece: u8, square: int) -> int {
    if pieces::white_code(piece) {
        table_value(pieces::type_of(piece), square) as int
    } else {
        -table_value(pieces::type_of(piece), 63 - square)
    }
}

/// The entry of the table of a kind of piece for a square.
pub fn pst_value(kind: u8, square: usize) -> (value: i16)
    requires
        kind < 6,
        square < 64,
    ensures
        value == table_value(kind, square as int),
{
    if kind == pieces::PAWN {
        MG_PAWN_PST[square]
    } else if kind == pieces::KNIGHT {
        MG_KNIGHT_PST[square]
    } else if kind == pieces::BISHOP {
        MG_BISHOP_PST[square]
    } else if kind == pieces::ROOK {
        MG_ROOK_PST[square]
    } else if kind == pieces::QUEEN {
        MG_QUEEN_PST[square]
    } else {
        MG_KING_PST[square]
    }
}

} // verus!
