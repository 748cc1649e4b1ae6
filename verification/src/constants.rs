//! Board geometry, square names and the scores that stand for mate.
//!
//! Squares are numbered row by row from a8 (0) to h1 (63): the column of a
//! square is its index modulo eight (the a-file is 0), its row the index
//! divided by eight (the eighth rank is row 0).

use vstd::prelude::*;

verus! {

/// The score of a mate delivered at the root. A mate found `n` plies from the
/// root scores `CHECKMATE - n` for the side that gives it.
pub const CHECKMATE: i16 = 30_000;

/// Scores within this distance of `CHECKMATE` are mate scores.
pub const MATE_RANGE: i16 = 1_000;

pub const NO: i8 = -8;
pub const EA: i8 = 1;
pub const SO: i8 = 8;
pub const WE: i8 = -1;
pub const NOEA: i8 = -7;
pub const SOWE: i8 = 7;
pub const SOEA: i8 = 9;
pub const NOWE: i8 = -9;

/// The row from which a pawn may advance two squares, by colour.
pub const SECOND_RANK: [u8; 2] = [1, 6];

/// The step of a pawn's advance, by colour.
pub const PAWN_PUSH: [i8; 2] = [8, -8];

/// The step of a pawn's double advance, by colour.
pub const DOUBLE_PAWN_PUSH: [i8; 2] = [16, -16];

/// The column of a square, 0 for the a-file.
pub open spec fn file_of(square: u8) -> int {
    square as int % 8
}

/// The row of a square, 0 for the eighth rank.
pub open spec fn row_of(square: u8) -> int {
    square as int / 8
}

/// The letter of a column.
pub open spec fn file_letter(file: u8) -> char {
    (97 + file) as char
}

/// The digit of a row.
pub open spec fn row_digit(row: u8) -> char {
    (56 - row) as char
}

/// The name of a square, such as `e4`.
pub open spec fn square_name(square: u8) -> Seq<char> {
    seq![file_letter(square % 8), row_digit(square / 8)]
}

/// Whether a text is the name of a square.
pub open spec fn is_square_name(name: Seq<char>) -> bool {
    name.len() == 2 && 'a' <= name[0] <= 'h' && '1' <= name[1] <= '8'
}

/// The square that a name stands for; 0 for a text that names none.
pub open spec fn name_index(name: Seq<char>) -> u8 {
    if is_square_name(name) {
        ((56 - name[1] as u8) * 8 + (name[0] as u8 - 97)) as u8
    } else {
        0
    }
}

/// A square's name is a name, and stands for that square.
pub proof fn lemma_square_name_round_trip(square: u8)
    requires
        square < 64,
    ensures
        is_square_name(square_name(square)),
        name_index(square_name(square)) == square,
{
}

/// A name is the name of the square that it stands for.
pub proof fn lemma_name_index_round_trip(name: Seq<char>)
    requires
        is_square_name(name),
    ensures
        name_index(name) < 64,
        square_name(name_index(name)) == name,
{
    let square = name_index(name);
    assert(square_name(square) =~= name);
}

/// The index of the square that a text names; 0 for any other text.
pub fn square_to_index(square: &str) -> (index: u8)
    ensures
        index == name_index(square@),
        index < 64,
{
    if square.unicode_len() != 2 {
        return 0;
    }
    let file = square.get_char(0);
    let row = square.get_char(1);
    if 'a' <= file && file <= 'h' && '1' <= row && row <= '8' {
        (56 - row as u8) * 8 + (file as u8 - 97)
    } else {
        0
    }
}

/// The one-letter text of a column.
pub fn file_str(file: u8) -> (text: &'static str)
    requires
        file < 8,
    ensures
        text@ == seq![file_letter(file)],
{
    proof {
        reveal_strlit("a");
        reveal_strlit("b");
        reveal_strlit("c");
        reveal_strlit("d");
        reveal_strlit("e");
        reveal_strlit("f");
        reveal_strlit("g");
        reveal_strlit("h");
    }
    let text = if file == 0 {
        "a"
    } else if file == 1 {
        "b"
    } else if file == 2 {
        "c"
    } else if file == 3 {
        "d"
    } else if file == 4 {
        "e"
    } else if file == 5 {
        "f"
    } else if file == 6 {
        "g"
    } else {
        "h"
    };
    assert(text@ =~= seq![file_letter(file)]);
    text
}

/// The one-digit text of a row.
pub fn row_str(row: u8) -> (text: &'static str)
    requires
        row < 8,
    ensures
        text@ == seq![row_digit(row)],
{
    proof {
        reveal_strlit("8");
        reveal_strlit("7");
        reveal_strlit("6");
        reveal_strlit("5");
        reveal_strlit("4");
        reveal_strlit("3");
        reveal_strlit("2");
        reveal_strlit("1");
    }
    let text = if row == 0 {
        "8"
    } else if row == 1 {
        "7"
    } else if row == 2 {
        "6"
    } else if row == 3 {
        "5"
    } else if row == 4 {
        "4"
    } else if row == 5 {
        "3"
    } else if row == 6 {
        "2"
    } else {
        "1"
    };
    assert(text@ =~= seq![row_digit(row)]);
    text
}

/// Whether a score is a mate score, for either side.
pub open spec fn mate_score(eval: i16) -> bool {
    eval > CHECKMATE - MATE_RANGE || eval < MATE_RANGE - CHECKMATE
}

/// Whether a score is a mate score, for either side.
pub fn is_checkmate(eval: i16) -> (mate: bool)
    ensures
        mate == mate_score(eval),
{
    eval > CHECKMATE - MATE_RANGE || eval < MATE_RANGE - CHECKMATE
}

/// The number of plies from the root to the mate that a mate score stands
/// for.
pub open spec fn mate_distance(eval: i16) -> int {
    CHECKMATE - if eval > 0 { eval as int } else { -eval }
}

/// The number of plies from the root to the mate that a mate score stands
/// for.
pub fn ply_from_mate(eval: i16) -> (ply: i16)
    requires
        mate_score(eval),
        -CHECKMATE <= eval <= CHECKMATE,
    ensures
        ply == mate_distance(eval),
        0 <= ply < MATE_RANGE,
{
    if eval > 0 {
        CHECKMATE - eval
    } else {
        CHECKMATE + eval
    }
}

} // verus!
