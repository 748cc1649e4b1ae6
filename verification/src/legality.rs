//! Positions that can occur in a game stay such positions: each side keeps
//! its one king, and the side that has moved is never left in check.

use vstd::prelude::*;
use crate::attacks::{lemma_bishop_symmetric, lemma_rook_symmetric, lemma_steps_symmetric};
use crate::move_data::MoveData;
use crate::movegen::{lemma_moves_all, lemma_moves_fit, lemma_moves_to_members, moves_to};
use crate::pieces;
use crate::position::{
    attacked,
    attacks_from,
    is_king_square,
    king_attacked,
    lemma_made_wf,
    occupancy,
    BoardView,
};

verus! {

impl BoardView {
    /// Whether a colour has exactly one king.
    pub open spec fn one_king(self, white: bool) -> bool {
        exists|square: u8| #[trigger] self.only_king_on(white, square)
    }

    /// Whether the one king of a colour stands on a square.
    pub open spec fn only_king_on(self, white: bool, square: u8) -> bool {
        &&& square < 64
        &&& self.squares[square as int] == pieces::piece_code(white, pieces::KING)
        &&& forall|other: u8|
            other < 64 && #[trigger] self.squares[other as int] == pieces::piece_code(
                white,
                pieces::KING,
            ) ==> other == square
    }

    /// Whether the position can occur in a game: it is well formed, each
    /// side has exactly one king, and the side that is not to move is not in
    /// check.
    pub open spec fn playable(self) -> bool {
        &&& self.wf()
        &&& self.one_king(true)
        &&& self.one_king(false)
        &&& !king_attacked(self.squares, !self.white_to_move)
    }

    /// Whether a move that goes to a piece of the other side attacks it: the
    /// piece on the origin is found among the attackers of the destination.
    pub open spec fn aims(self, m: MoveData) -> bool {
        self.enemy_at(m.to) ==> attacks_from(self.squares, m.to, self.white_to_move, m.from)
    }
}

/// Every move of a piece that goes to a piece of the other side attacks it.
proof fn lemma_piece_moves_aim(v: BoardView, from: u8, captures_only: bool)
    requires
        v.wf(),
        from < 64,
        v.own_at(from),
    ensures
        forall|k: int|
            0 <= k < v.piece_moves(from, captures_only).len() ==> v.aims(
                #[trigger] v.piece_moves(from, captures_only)[k],
            ),
{
    let piece = v.squares[from as int];
    let moves = v.piece_moves(from, captures_only);
    let occupied = occupancy(v.squares);
    if pieces::type_of(piece) == pieces::PAWN {
        let pushes = if captures_only {
            Seq::empty()
        } else {
            v.pawn_pushes(from)
        };
        let captures = moves_to(from, piece, v.pawn_targets(from), v.promotes_from(from), 64);
        let en_passant = v.pawn_en_passant(from);
        lemma_moves_to_members(from, piece, v.pawn_targets(from), v.promotes_from(from), 64);
        assert forall|k: int| 0 <= k < moves.len() implies v.aims(#[trigger] moves[k]) by {
            if k < pushes.len() {
                assert(moves[k] == pushes[k]);
            } else if k < pushes.len() + captures.len() {
                let m = captures[k - pushes.len()];
                assert(moves[k] == m);
                lemma_steps_symmetric(from, m.to, v.white_to_move);
            } else {
                assert(moves[k] == en_passant[k - pushes.len() - captures.len()]);
            }
        }
    } else {
        let castling = if !captures_only && pieces::type_of(piece) == pieces::KING {
            v.castling_moves(from)
        } else {
            Seq::empty()
        };
        let plain = moves_to(from, piece, v.piece_targets(from, captures_only), false, 64);
        lemma_moves_to_members(from, piece, v.piece_targets(from, captures_only), false, 64);
        assert forall|k: int| 0 <= k < moves.len() implies v.aims(#[trigger] moves[k]) by {
            if k < castling.len() {
                assert(moves[k] == castling[k]);
                assert(v.squares[from as int] == pieces::piece_code(
                    v.white_to_move,
                    pieces::KING,
                ));
            } else {
                let m = plain[k - castling.len()];
                assert(moves[k] == m);
                lemma_steps_symmetric(from, m.to, v.white_to_move);
                lemma_rook_symmetric(from, m.to, occupied);
                lemma_bishop_symmetric(from, m.to, occupied);
            }
        }
    }
}

/// In a position in which the side that is not to move has its one king and
/// is not in check, no move takes the king.
pub proof fn lemma_moves_spare_the_king(v: BoardView, k: int)
    requires
        v.wf(),
        v.one_king(!v.white_to_move),
        !king_attacked(v.squares, !v.white_to_move),
        0 <= k < v.moves(false).len(),
    ensures
        v.squares[v.moves(false)[k].to as int] != pieces::piece_code(
            !v.white_to_move,
            pieces::KING,
        ),
{
    let m = v.moves(false)[k];
    let king = pieces::piece_code(!v.white_to_move, pieces::KING) as u8;
    let aims = |m: MoveData| v.aims(m);
    assert forall|from: u8, j: int|
        from < 64 && v.own_at(from) && 0 <= j < v.piece_moves(from, false).len() implies aims(
        #[trigger] v.piece_moves(from, false)[j],
    ) by {
        lemma_piece_moves_aim(v, from, false);
    }
    lemma_moves_all(v, false, aims);
    lemma_moves_fit(v, false, 6);
    assert(aims(m));
    assert(v.fits(m));
    if v.squares[m.to as int] == king {
        let black = !v.white_to_move;
        let home = choose|square: u8| #[trigger] v.only_king_on(black, square);
        assert(home == m.to);
        assert(is_king_square(v.squares, !v.white_to_move, home));
        assert(attacks_from(v.squares, m.to, v.white_to_move, m.from));
        assert(attacked(v.squares, home, v.white_to_move));
    }
}

/// A legal move in a position that can occur in a game leads to a position
/// that can occur in a game: each side still has exactly one king, and the
/// side that has moved is not in check.
pub proof fn lemma_play_stays_playable(v: BoardView, k: int)
    requires
        v.playable(),
        0 <= k < v.moves(false).len(),
        v.legal(v.moves(false)[k]),
    ensures
        v.made(v.moves(false)[k]).playable(),
{
    let m = v.moves(false)[k];
    let after = v.made(m);
    let white = v.white_to_move;
    lemma_moves_fit(v, false, 6);
    assert(v.fits(m));
    lemma_made_wf(v, m);
    lemma_moves_spare_the_king(v, k);
    let black = !white;
    let own = choose|square: u8| #[trigger] v.only_king_on(white, square);
    let other = choose|square: u8| #[trigger] v.only_king_on(black, square);
    let own_after = if m.from == own { m.to } else { own };
    assert(after.only_king_on(white, own_after));
    assert(after.only_king_on(!white, other));
}

} // verus!
