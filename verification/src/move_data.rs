//! A move: where from, where to, which piece moves, and what kind of move it
//! is.

use vstd::prelude::*;
use vstd::string::StringExecFns;
use crate::constants::{
    file_str,
    is_square_name,
    lemma_name_index_round_trip,
    lemma_square_name_round_trip,
    name_index,
    row_str,
    square_name,
    square_to_index,
};
use crate::pieces;
use crate::pieces::{letter_piece, piece_letter};

pub mod flag;

verus! {

/// A move.
#[derive(Copy, Clone, Debug, PartialEq, Eq, Structural)]
pub struct MoveData {
    pub from: u8,
    pub to: u8,
    pub piece: u8,
    pub flag: u8,
}

/// The move that stands for "no move".
pub open spec fn null_move() -> MoveData {
    MoveData { from: 0, to: 0, piece: pieces::NONE, flag: flag::NONE }
}

impl Default for MoveData {
    /// The null move.
    fn default() -> (m: Self)
        ensures
            m == null_move(),
    {
        Self { from: 0, to: 0, piece: pieces::NONE, flag: flag::NONE }
    }
}

/// The move that a coordinate text stands for: two square names and, where
/// there is a fifth character, the piece that its letter names as the flag.
/// The moving piece is not part of the text.
pub open spec fn move_of_coordinates(text: Seq<char>) -> MoveData
    recommends
        text.len() >= 4,
{
    MoveData {
        from: name_index(text.subrange(0, 2)),
        to: name_index(text.subrange(2, 4)),
        piece: pieces::NONE,
        flag: if text.len() > 4 {
            letter_piece(text[4])
        } else {
            flag::NONE
        },
    }
}

/// The coordinate text of a move: the names of its two squares and, for a
/// promotion, the lower-case letter of the piece promoted to.
pub open spec fn coordinates_of(m: MoveData) -> Seq<char> {
    square_name(m.from) + square_name(m.to) + if flag::promotes(m.flag) {
        seq![piece_letter(m.flag)]
    } else {
        Seq::<char>::empty()
    }
}

/// Whether a text is a move in coordinates: two square names, alone or
/// followed by one of the letters `n`, `b`, `r`, `q`.
pub open spec fn is_coordinates(text: Seq<char>) -> bool {
    &&& 4 <= text.len() <= 5
    &&& is_square_name(text.subrange(0, 2))
    &&& is_square_name(text.subrange(2, 4))
    &&& text.len() == 5 ==> text[4] == 'n' || text[4] == 'b' || text[4] == 'r' || text[4] == 'q'
}

impl MoveData {
    /// The move that stands for "no move".
    pub fn null() -> (m: Self)
        ensures
            m == null_move(),
    {
        Self { from: 0, to: 0, piece: pieces::NONE, flag: flag::NONE }
    }

    /// The squares of a move from twelve bits: the origin in the upper six,
    /// the destination in the lower six.
    pub fn from_binary(binary: u16) -> (m: Self)
        ensures
            m.from == (binary / 64) % 64,
            m.to == binary % 64,
            m.piece == pieces::NONE,
            m.flag == flag::NONE,
    {
        assert(((binary & 0b111111_000000) >> 6) == (binary / 64) % 64 && (binary & 0b000000_111111)
            == binary % 64) by (bit_vector);
        Self {
            from: ((binary & 0b111111_000000) >> 6) as u8,
            to: (binary & 0b000000_111111) as u8,
            piece: pieces::NONE,
            flag: flag::NONE,
        }
    }

    /// The move that a coordinate text of at least four characters stands
    /// for.
    pub fn from_coordinates(coordinates: &str) -> (m: Self)
        requires
            coordinates@.len() >= 4,
        ensures
            m == move_of_coordinates(coordinates@),
            m.from < 64,
            m.to < 64,
    {
        let n = coordinates.unicode_len();
        let from = square_to_index(coordinates.substring_char(0, 2));
        let to = square_to_index(coordinates.substring_char(2, 4));
        let flag = if n > 4 {
            pieces::from_char(coordinates.get_char(4))
        } else {
            flag::NONE
        };
        Self { from, to, piece: pieces::NONE, flag }
    }

    /// The squares of the move in twelve bits.
    pub fn to_binary(&self) -> (binary: u16)
        ensures
            binary == ((self.from as u16) << 6) | (self.to as u16),
            self.from < 64 && self.to < 64 ==> binary == self.from * 64 + self.to,
            self.from < 64 && self.to < 64 ==> (binary / 64) % 64 == self.from && binary % 64
                == self.to,
    {
        let a: u16 = self.from as u16;
        let b: u16 = self.to as u16;
        assert(a < 64 && b < 64 ==> ((a << 6) | b) == a * 64 + b && (((a << 6) | b) / 64) % 64 == a
            && ((a << 6) | b) % 64 == b) by (bit_vector);
        (a << 6) | b
    }

    /// The move in coordinates, such as `e2e4` or `e7e8q`.
    pub fn to_coordinates(&self) -> (text: String)
        requires
            self.from < 64,
            self.to < 64,
        ensures
            text@ == coordinates_of(*self),
    {
        let mut text = String::from_str(file_str(self.from % 8));
        text.append(row_str(self.from / 8));
        text.append(file_str(self.to % 8));
        text.append(row_str(self.to / 8));
        if flag::is_promotion(self.flag) {
            text.append(pieces::to_str(self.flag));
        }
        assert(text@ =~= coordinates_of(*self));
        text
    }
}

/// The text of a move, read back, gives the squares and the promotion of that
/// move.
pub proof fn lemma_move_text_round_trip(m: MoveData)
    requires
        m.from < 64,
        m.to < 64,
    ensures
        move_of_coordinates(coordinates_of(m)).from == m.from,
        move_of_coordinates(coordinates_of(m)).to == m.to,
        move_of_coordinates(coordinates_of(m)).flag == if flag::promotes(m.flag) {
            m.flag
        } else {
            flag::NONE
        },
        is_coordinates(coordinates_of(m)),
{
    let text = coordinates_of(m);
    assert(text.subrange(0, 2) =~= square_name(m.from));
    assert(text.subrange(2, 4) =~= square_name(m.to));
    lemma_square_name_round_trip(m.from);
    lemma_square_name_round_trip(m.to);
}

/// A move in coordinates, read and written again, is the same text.
pub proof fn lemma_coordinates_round_trip(text: Seq<char>)
    requires
        is_coordinates(text),
    ensures
        coordinates_of(move_of_coordinates(text)) == text,
        move_of_coordinates(text).from < 64,
        move_of_coordinates(text).to < 64,
{
    let m = move_of_coordinates(text);
    lemma_name_index_round_trip(text.subrange(0, 2));
    lemma_name_index_round_trip(text.subrange(2, 4));
    assert(coordinates_of(m) =~= text);
}

} // verus!
