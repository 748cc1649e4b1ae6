//! What kind of move a move is. The four promotion flags are the type codes
//! of the pieces promoted to.

use vstd::prelude::*;

verus! {

pub const NONE: u8 = 0;
pub const PROMOTE_KNIGHT: u8 = 1;
pub const PROMOTE_BISHOP: u8 = 2;
pub const PROMOTE_ROOK: u8 = 3;
pub const PROMOTE_QUEEN: u8 = 4;
pub const DOUBLE_PAWN_PUSH: u8 = 5;
pub const EN_PASSANT: u8 = 6;
pub const CASTLE_KINGSIDE: u8 = 7;
pub const CASTLE_QUEENSIDE: u8 = 8;

/// Whether a flag is one of the four promotions.
pub open spec fn promotes(flag: u8) -> bool {
    1 <= flag <= 4
}

/// Whether a flag is one of the four promotions.
pub fn is_promotion(flag: u8) -> (promotion: bool)
    ensures
        promotion == promotes(flag),
{
    flag == PROMOTE_KNIGHT || flag == PROMOTE_BISHOP || flag == PROMOTE_ROOK || flag
        == PROMOTE_QUEEN
}

} // verus!
