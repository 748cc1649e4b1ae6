//! A packed encoding of pieces and moves: a piece in four bits (colour in the
//! top one), a move in twenty bits (flag, capture, origin and destination).

use vstd::prelude::*;

verus! {

pub const PAWN: u8 = 0b0001;
pub const KNIGHT: u8 = 0b0010;
pub const BISHOP: u8 = 0b0011;
pub const ROOK: u8 = 0b0100;
pub const QUEEN: u8 = 0b0101;
pub const KING: u8 = 0b0110;

pub const WHITE: u8 = 0b1000;
pub const BLACK: u8 = 0b0000;

pub const COLOR_MASK: u8 = 0b1000;
pub const PIECE_MASK: u8 = 0b0111;

pub const DOUBLE_PAWN_PUSH_FLAG: u8 = 0b0001;
pub const EN_PASSANT_FLAG: u8 = 0b0110;
pub const CASTLE_SHORT_FLAG: u8 = 0b0111;
pub const CASTLE_LONG_FLAG: u8 = 0b1000;

pub const MOVE_FLAG_MASK: u32 = 0b1111_0000_000000_000000;
pub const MOVE_CAPTURE_MASK: u32 = 0b0000_1111_000000_000000;
pub const MOVE_FROM_MASK: u32 = 0b0000_0000_111111_000000;
pub const MOVE_TO_MASK: u32 = 0b0000_0000_000000_111111;

/// Whether the colour bit of a packed piece is set.
pub fn is_white(piece: u8) -> (white: bool)
    ensures
        white == (piece & COLOR_MASK == WHITE),
        piece < 16 ==> white == (piece >= 8),
{
    assert(piece < 16 ==> (piece & 0b1000 == 0b1000) == (piece >= 8)) by (bit_vector);
    piece & COLOR_MASK == WHITE
}

/// The type of a packed piece: its three low bits.
pub fn get_piece_type(piece: u8) -> (piece_type: u8)
    ensures
        piece_type == piece & PIECE_MASK,
        piece_type == piece % 8,
{
    assert(piece & 0b0111 == piece % 8) by (bit_vector);
    piece & PIECE_MASK
}

/// The packed move made of the four parts.
pub open spec fn packed_move(flag: u8, capture: u32, from: usize, to: usize) -> int {
    flag * 0x10000 + capture * 0x1000 + from * 0x40 + to
}

/// The flag of a packed move.
pub fn get_move_flag(m: u32) -> (flag: u8)
    ensures
        flag == (m / 0x10000) % 16,
{
    assert(((m & 0b1111_0000_000000_000000) >> 16) == (m / 0x10000) % 16) by (bit_vector);
    ((m & MOVE_FLAG_MASK) >> 16) as u8
}

/// The captured piece of a packed move.
pub fn get_move_capture(m: u32) -> (capture: u8)
    ensures
        capture == (m / 0x1000) % 16,
{
    assert(((m & 0b0000_1111_000000_000000) >> 12) == (m / 0x1000) % 16) by (bit_vector);
    ((m & MOVE_CAPTURE_MASK) >> 12) as u8
}

/// The origin of a packed move.
pub fn get_move_from(m: u32) -> (from: usize)
    ensures
        from == (m / 0x40) % 64,
{
    assert(((m & 0b0000_0000_111111_000000) >> 6) == (m / 0x40) % 64) by (bit_vector);
    ((m & MOVE_FROM_MASK) >> 6) as usize
}

/// The destination of a packed move.
pub fn get_move_to(m: u32) -> (to: usize)
    ensures
        to == m % 64,
{
    assert((m & 0b0000_0000_000000_111111) == m % 64) by (bit_vector);
    (m & MOVE_TO_MASK) as usize
}

/// Packs a move.
pub fn build_move(flag: u8, capture: u32, from: usize, to: usize) -> (m: u32)
    requires
        flag < 16,
        capture < 16,
        from < 64,
        to < 64,
    ensures
        m == packed_move(flag, capture, from, to),
        (m / 0x10000) % 16 == flag,
        (m / 0x1000) % 16 == capture,
        (m / 0x40) % 64 == from,
        m % 64 == to,
{
    let f: u32 = flag as u32;
    let a: u32 = from as u32;
    let b: u32 = to as u32;
    let m: u32 = (f << 16) | (capture << 12) | (a << 6) | b;
    assert(m == f * 0x10000 + capture * 0x1000 + a * 0x40 + b && (m / 0x10000) % 16 == f && (m
        / 0x1000) % 16 == capture && (m / 0x40) % 64 == a && m % 64 == b) by (bit_vector)
        requires
            m == (f << 16) | (capture << 12) | (a << 6) | b,
            f < 16,
            capture < 16,
            a < 64,
            b < 64,
    ;
    m
}

} // verus!
