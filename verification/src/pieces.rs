//! Piece codes: six piece types in two colours, and a code for "no piece".
//!
//! A code below six is a black piece, a code from six to eleven a white one;
//! the type of a piece is its code modulo six.

use vstd::prelude::*;

verus! {

pub const PAWN: u8 = 0;
pub const KNIGHT: u8 = 1;
pub const BISHOP: u8 = 2;
pub const ROOK: u8 = 3;
pub const QUEEN: u8 = 4;
pub const KING: u8 = 5;

pub const BLACK: usize = 0;
pub const WHITE: usize = 1;

pub const BLACK_PAWN: u8 = 0;
pub const BLACK_KNIGHT: u8 = 1;
pub const BLACK_BISHOP: u8 = 2;
pub const BLACK_ROOK: u8 = 3;
pub const BLACK_QUEEN: u8 = 4;
pub const BLACK_KING: u8 = 5;

pub const WHITE_PAWN: u8 = 6;
pub const WHITE_KNIGHT: u8 = 7;
pub const WHITE_BISHOP: u8 = 8;
pub const WHITE_ROOK: u8 = 9;
pub const WHITE_QUEEN: u8 = 10;
pub const WHITE_KING: u8 = 11;

pub const NONE: u8 = 12;
pub const COUNT: u8 = 12;

/// The code of the piece of the given colour and type.
pub open spec fn piece_code(white: bool, piece_type: u8) -> int {
    piece_type + if white { 6int } else { 0int }
}

/// Whether a code is on the white side of the table. `NONE` counts as white.
pub open spec fn white_code(piece: u8) -> bool {
    piece > BLACK_KING
}

/// The type of a piece: its code modulo six.
pub open spec fn type_of(piece: u8) -> u8 {
    piece % 6
}

/// The letter that stands for a piece in a position string; a blank for any
/// other code.
pub open spec fn piece_letter(piece: u8) -> char {
    if piece == BLACK_PAWN {
        'p'
    } else if piece == BLACK_KNIGHT {
        'n'
    } else if piece == BLACK_BISHOP {
        'b'
    } else if piece == BLACK_ROOK {
        'r'
    } else if piece == BLACK_QUEEN {
        'q'
    } else if piece == BLACK_KING {
        'k'
    } else if piece == WHITE_PAWN {
        'P'
    } else if piece == WHITE_KNIGHT {
        'N'
    } else if piece == WHITE_BISHOP {
        'B'
    } else if piece == WHITE_ROOK {
        'R'
    } else if piece == WHITE_QUEEN {
        'Q'
    } else if piece == WHITE_KING {
        'K'
    } else {
        ' '
    }
}

/// The piece that a letter stands for, `NONE` for any other character.
pub open spec fn letter_piece(c: char) -> u8 {
    if c == 'p' {
        BLACK_PAWN
    } else if c == 'n' {
        BLACK_KNIGHT
    } else if c == 'b' {
        BLACK_BISHOP
    } else if c == 'r' {
        BLACK_ROOK
    } else if c == 'q' {
        BLACK_QUEEN
    } else if c == 'k' {
        BLACK_KING
    } else if c == 'P' {
        WHITE_PAWN
    } else if c == 'N' {
        WHITE_KNIGHT
    } else if c == 'B' {
        WHITE_BISHOP
    } else if c == 'R' {
        WHITE_ROOK
    } else if c == 'Q' {
        WHITE_QUEEN
    } else if c == 'K' {
        WHITE_KING
    } else {
        NONE
    }
}

/// The code of the piece of a colour and a type.
pub fn build_piece(is_white: bool, piece_type: u8) -> (piece: u8)
    requires
        piece_type <= u8::MAX - 6,
    ensures
        piece == piece_code(is_white, piece_type),
        piece_type < 6 ==> piece < COUNT && white_code(piece) == is_white && type_of(piece)
            == piece_type,
{
    if is_white {
        piece_type + 6
    } else {
        piece_type
    }
}

/// Whether a code is that of a white piece.
pub fn is_white(piece: u8) -> (white: bool)
    ensures
        white == white_code(piece),
{
    piece > BLACK_KING
}

/// The type of a piece.
pub fn get_type(piece: u8) -> (piece_type: u8)
    ensures
        piece_type == type_of(piece),
        piece_type < 6,
{
    piece % 6
}

/// The index of a piece's colour: `WHITE` or `BLACK`.
pub fn get_color_index(piece: u8) -> (color: usize)
    ensures
        color == if white_code(piece) { WHITE } else { BLACK },
{
    if is_white(piece) {
        WHITE
    } else {
        BLACK
    }
}

/// The code of the pawn of a piece's colour.
pub fn get_color_offset(piece: u8) -> (offset: u8)
    ensures
        offset == if white_code(piece) { 6u8 } else { 0u8 },
{
    if is_white(piece) {
        6
    } else {
        0
    }
}

/// Whether a pawn may capture what stands on a square: a piece of the other
/// colour.
pub fn can_pawn_capture(piece: u8, capture: u8) -> (can: bool)
    ensures
        can == (capture != NONE && white_code(piece) != white_code(capture)),
{
    capture != NONE && is_white(piece) != is_white(capture)
}

/// The letter of a piece, a blank for any other code.
pub fn to_char(piece: u8) -> (c: char)
    ensures
        c == piece_letter(piece),
{
    if piece == BLACK_PAWN {
        'p'
    } else if piece == BLACK_KNIGHT {
        'n'
    } else if piece == BLACK_BISHOP {
        'b'
    } else if piece == BLACK_ROOK {
        'r'
    } else if piece == BLACK_QUEEN {
        'q'
    } else if piece == BLACK_KING {
        'k'
    } else if piece == WHITE_PAWN {
        'P'
    } else if piece == WHITE_KNIGHT {
        'N'
    } else if piece == WHITE_BISHOP {
        'B'
    } else if piece == WHITE_ROOK {
        'R'
    } else if piece == WHITE_QUEEN {
        'Q'
    } else if piece == WHITE_KING {
        'K'
    } else {
        ' '
    }
}

/// The letter of a piece as a text.
pub fn to_str(piece: u8) -> (s: &'static str)
    ensures
        s@ == seq![piece_letter(piece)],
{
    proof {
        reveal_strlit("p");
        reveal_strlit("n");
        reveal_strlit("b");
        reveal_strlit("r");
        reveal_strlit("q");
        reveal_strlit("k");
        reveal_strlit("P");
        reveal_strlit("N");
        reveal_strlit("B");
        reveal_strlit("R");
        reveal_strlit("Q");
        reveal_strlit("K");
        reveal_strlit(" ");
    }
    let s = if piece == BLACK_PAWN {
        "p"
    } else if piece == BLACK_KNIGHT {
        "n"
    } else if piece == BLACK_BISHOP {
        "b"
    } else if piece == BLACK_ROOK {
        "r"
    } else if piece == BLACK_QUEEN {
        "q"
    } else if piece == BLACK_KING {
        "k"
    } else if piece == WHITE_PAWN {
        "P"
    } else if piece == WHITE_KNIGHT {
        "N"
    } else if piece == WHITE_BISHOP {
        "B"
    } else if piece == WHITE_ROOK {
        "R"
    } else if piece == WHITE_QUEEN {
        "Q"
    } else if piece == WHITE_KING {
        "K"
    } else {
        " "
    };
    assert(s@ =~= seq![piece_letter(piece)]);
    s
}

/// The piece that a letter stands for.
pub fn from_char(c: char) -> (piece: u8)
    ensures
        piece == letter_piece(c),
        piece <= NONE,
{
    if c == 'p' {
        BLACK_PAWN
    } else if c == 'n' {
        BLACK_KNIGHT
    } else if c == 'b' {
        BLACK_BISHOP
    } else if c == 'r' {
        BLACK_ROOK
    } else if c == 'q' {
        BLACK_QUEEN
    } else if c == 'k' {
        BLACK_KING
    } else if c == 'P' {
        WHITE_PAWN
    } else if c == 'N' {
        WHITE_KNIGHT
    } else if c == 'B' {
        WHITE_BISHOP
    } else if c == 'R' {
        WHITE_ROOK
    } else if c == 'Q' {
        WHITE_QUEEN
    } else if c == 'K' {
        WHITE_KING
    } else {
        NONE
    }
}

/// Reading the letter of a piece gives the piece back.
pub proof fn lemma_letter_round_trip(piece: u8)
    requires
        piece < COUNT,
    ensures
        letter_piece(piece_letter(piece)) == piece,
{
}

} // verus!
