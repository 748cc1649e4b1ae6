//! The position as a mathematical value, and what a move does to it.

use vstd::prelude::*;
use crate::attacks::{bishop_reaches, king_step, knight_jump, pawn_attack, rook_reaches};
use crate::castling_rights::{lemma_rights_bits, rights_bits, CastlingRights};
use crate::move_data::flag;
use crate::move_data::MoveData;
use crate::pieces;
use crate::utils::{bit_of, has_bit, lemma_bit_of, lemma_bit_or, lemma_bit_zero};
use crate::zobrist::{
    castling_key,
    en_passant_key,
    en_passant_victim,
    next_key,
    pcg64_output,
    piece_key,
    placed_piece,
    position_key,
    side_key,
    squares_key,
    SEED,
    SIDE_INDEX,
};

verus! {

/// What a move cannot recompute when it is taken back.
#[derive(Copy, Clone, Debug)]
pub struct BoardState {
    /// The piece that the last move took, `pieces::NONE` if it took none.
    pub capture: u8,
    pub castling_rights: CastlingRights,
    /// The square that a pawn passed over with a double step in the last
    /// move, 0 if there is none.
    pub en_passant_square: u8,
    /// The number of plies since a capture or a pawn move.
    pub halfmove_clock: u8,
}

/// The position as a value: the piece on each of the 64 squares, the side to
/// move, and the stacks of states and keys, the current ones last.
pub struct BoardView {
    pub squares: Seq<u8>,
    pub white_to_move: bool,
    pub states: Seq<BoardState>,
    pub keys: Seq<u64>,
}

/// The board of the occupied squares among the first `n`.
pub open spec fn occupancy_upto(squares: Seq<u8>, n: nat) -> u64
    decreases n,
{
    if n == 0 {
        0
    } else {
        occupancy_upto(squares, (n - 1) as nat) | if squares[n - 1] != pieces::NONE {
            bit_of((n - 1) as u8)
        } else {
            0
        }
    }
}

/// The board of the occupied squares.
pub open spec fn occupancy(squares: Seq<u8>) -> u64 {
    occupancy_upto(squares, 64)
}

/// A square is on the board of the occupied squares among the first `n` when
/// it is one of them and a piece stands on it.
pub proof fn lemma_occupancy_upto(squares: Seq<u8>, n: nat, j: u8)
    requires
        n <= 64,
        j < 64,
    ensures
        has_bit(occupancy_upto(squares, n), j) == (j < n && squares[j as int] != pieces::NONE),
    decreases n,
{
    if n == 0 {
        lemma_bit_zero(j);
    } else {
        lemma_occupancy_upto(squares, (n - 1) as nat, j);
        let rest = occupancy_upto(squares, (n - 1) as nat);
        if squares[n - 1] != pieces::NONE {
            lemma_bit_or(rest, bit_of((n - 1) as u8), j);
            lemma_bit_of((n - 1) as u8, j);
        } else {
            lemma_bit_or(rest, 0, j);
            lemma_bit_zero(j);
        }
    }
}

/// A square is on the board of the occupied squares when a piece stands on
/// it.
pub proof fn lemma_occupancy(squares: Seq<u8>)
    ensures
        forall|j: u8|
            j < 64 ==> #[trigger] has_bit(occupancy(squares), j) == (squares[j as int]
                != pieces::NONE),
{
    assert forall|j: u8| j < 64 implies #[trigger] has_bit(occupancy(squares), j) == (
    squares[j as int] != pieces::NONE) by {
        lemma_occupancy_upto(squares, 64, j);
    }
}

/// Whether the piece on `from` attacks `target` for the side `by_white`, found
/// backwards: it is a piece of that side, and a piece of its kind on `target`
/// would attack `from` (for a pawn: a pawn of the other side).
pub open spec fn attacks_from(squares: Seq<u8>, target: u8, by_white: bool, from: u8) -> bool {
    let piece = squares[from as int];
    let kind = pieces::type_of(piece);
    let occupied = occupancy(squares);
    &&& piece < 12
    &&& pieces::white_code(piece) == by_white
    &&& {
        ||| kind == pieces::PAWN && pawn_attack(target, !by_white, from)
        ||| kind == pieces::KNIGHT && knight_jump(target, from)
        ||| (kind == pieces::BISHOP || kind == pieces::QUEEN) && bishop_reaches(
            target,
            occupied,
            from,
        )
        ||| (kind == pieces::ROOK || kind == pieces::QUEEN) && rook_reaches(target, occupied, from)
        ||| kind == pieces::KING && king_step(target, from)
    }
}

/// Whether the side `by_white` attacks a square.
pub open spec fn attacked(squares: Seq<u8>, target: u8, by_white: bool) -> bool {
    exists|from: u8| from < 64 && attacks_from(squares, target, by_white, from)
}

/// Whether a square is the first one that holds the king of a colour.
pub open spec fn is_king_square(squares: Seq<u8>, white: bool, square: u8) -> bool {
    &&& square < 64
    &&& squares[square as int] == pieces::piece_code(white, pieces::KING)
    &&& forall|j: u8| j < square ==> squares[j as int] != pieces::piece_code(white, pieces::KING)
}

/// Whether a colour has a king on the board.
pub open spec fn has_king(squares: Seq<u8>, white: bool) -> bool {
    exists|square: u8|
        square < 64 && #[trigger] squares[square as int] == pieces::piece_code(
            white,
            pieces::KING,
        )
}

/// Whether the king of a colour stands attacked. A side whose king has been
/// taken counts as attacked, so that it has no legal move and is mated; of
/// several kings the first counts.
pub open spec fn king_attacked(squares: Seq<u8>, white: bool) -> bool {
    ||| !has_king(squares, white)
    ||| exists|square: u8|
        is_king_square(squares, white, square) && attacked(squares, square, !white)
}

/// Whether a move makes a rook leave or be taken on a rook's home square.
pub open spec fn corner_lost(m: MoveData, capture: u8, square: u8) -> bool {
    ||| pieces::type_of(m.piece) == pieces::ROOK && m.from == square
    ||| capture != pieces::NONE && pieces::type_of(capture) == pieces::ROOK && m.to == square
}

/// The castling rights after a move. A double pawn step and an en passant
/// capture leave them alone. Any other move of a king takes both rights of
/// its colour, and a rook that leaves its home square, or is taken there,
/// takes the right of that square.
pub open spec fn rights_after(
    rights: CastlingRights,
    m: MoveData,
    capture: u8,
    white: bool,
) -> CastlingRights {
    if m.flag == flag::DOUBLE_PAWN_PUSH || m.flag == flag::EN_PASSANT {
        rights
    } else {
        let king = pieces::type_of(m.piece) == pieces::KING;
        CastlingRights(
            rights_bits(
                rights.white_kingside() && !(king && white) && !corner_lost(m, capture, 63),
                rights.white_queenside() && !(king && white) && !corner_lost(m, capture, 56),
                rights.black_kingside() && !(king && !white) && !corner_lost(m, capture, 7),
                rights.black_queenside() && !(king && !white) && !corner_lost(m, capture, 0),
            ),
        )
    }
}

/// The squares after a move: the moving piece leaves its square and it, or
/// the piece promoted to, stands on the destination; an en passant capture
/// also empties the square of the pawn taken, and castling also moves the rook
/// from its corner to the other side of the king.
pub open spec fn squares_after(
    squares: Seq<u8>,
    m: MoveData,
    en_passant_square: u8,
    white: bool,
) -> Seq<u8> {
    let moved = squares.update(m.from as int, pieces::NONE).update(m.to as int, placed_piece(m));
    let rook = pieces::piece_code(white, pieces::ROOK) as u8;
    if m.flag == flag::EN_PASSANT {
        moved.update(en_passant_victim(en_passant_square, white), pieces::NONE)
    } else if m.flag == flag::CASTLE_KINGSIDE {
        moved.update(m.to + 1, pieces::NONE).update(m.to - 1, rook)
    } else if m.flag == flag::CASTLE_QUEENSIDE {
        moved.update(m.to - 2, pieces::NONE).update(m.to + 1, rook)
    } else {
        moved
    }
}

/// The state that a move pushes.
pub open spec fn state_after(
    squares: Seq<u8>,
    state: BoardState,
    m: MoveData,
    white: bool,
) -> BoardState {
    let capture = if m.flag == flag::EN_PASSANT {
        pieces::piece_code(!white, pieces::PAWN) as u8
    } else {
        squares[m.to as int]
    };
    BoardState {
        capture,
        castling_rights: rights_after(state.castling_rights, m, capture, white),
        en_passant_square: if m.flag == flag::DOUBLE_PAWN_PUSH {
            (if white { m.to + 8 } else { m.to - 8 }) as u8
        } else {
            0
        },
        halfmove_clock: if capture != pieces::NONE || pieces::type_of(m.piece) == pieces::PAWN {
            0
        } else if state.halfmove_clock < u8::MAX {
            (state.halfmove_clock + 1) as u8
        } else {
            u8::MAX
        },
    }
}

impl BoardView {
    /// The current state: the one on top of the stack.
    pub open spec fn state(self) -> BoardState {
        self.states.last()
    }

    /// The current key.
    pub open spec fn key(self) -> u64 {
        self.keys.last()
    }

    /// A castling right is held only while the rook stands on its home square
    /// and no king of that colour stands anywhere but on the king's.
    pub open spec fn castling_ok(self) -> bool {
        let rights = self.state().castling_rights;
        &&& rights.white_kingside() ==> self.squares[63] == pieces::WHITE_ROOK
        &&& rights.white_queenside() ==> self.squares[56] == pieces::WHITE_ROOK
        &&& rights.black_kingside() ==> self.squares[7] == pieces::BLACK_ROOK
        &&& rights.black_queenside() ==> self.squares[0] == pieces::BLACK_ROOK
        &&& rights.white_kingside() || rights.white_queenside() ==> forall|i: int|
            0 <= i < 64 && #[trigger] self.squares[i] == pieces::WHITE_KING ==> i == 60
        &&& rights.black_kingside() || rights.black_queenside() ==> forall|i: int|
            0 <= i < 64 && #[trigger] self.squares[i] == pieces::BLACK_KING ==> i == 4
    }

    /// An en passant square is empty, and the pawn that passed over it stands
    /// one step behind it, seen from the side to move.
    pub open spec fn en_passant_ok(self) -> bool {
        let square = self.state().en_passant_square;
        let victim = en_passant_victim(square, self.white_to_move);
        square != 0 ==> {
            &&& square < 64
            &&& 0 <= victim < 64
            &&& self.squares[square as int] == pieces::NONE
            &&& self.squares[victim] == pieces::piece_code(!self.white_to_move, pieces::PAWN)
        }
    }

    /// What holds of every position that the library works on.
    pub open spec fn wf(self) -> bool {
        &&& self.squares.len() == 64
        &&& forall|i: int| 0 <= i < 64 ==> #[trigger] self.squares[i] <= pieces::NONE
        &&& self.states.len() >= 1
        &&& self.keys.len() == self.states.len()
        &&& self.state().castling_rights.wf()
        &&& self.key() == position_key(
            self.squares,
            self.state().castling_rights.0,
            self.state().en_passant_square,
            self.white_to_move,
        )
        &&& self.castling_ok()
        &&& self.en_passant_ok()
    }

    /// Whether a move can be made in this position: its piece stands on its
    /// origin and belongs to the side to move, its destination holds no piece
    /// of that side, and what its flag says is true of the position. This
    /// asks nothing of how the piece moves, nor of the king's safety.
    pub open spec fn fits(self, m: MoveData) -> bool {
        let white = self.white_to_move;
        let target = self.squares[m.to as int];
        let kind = pieces::type_of(m.piece);
        let rook = pieces::piece_code(white, pieces::ROOK);
        &&& m.from < 64
        &&& m.to < 64
        &&& m.piece < 12
        &&& m.flag <= flag::CASTLE_QUEENSIDE
        &&& self.squares[m.from as int] == m.piece
        &&& pieces::white_code(m.piece) == white
        &&& target == pieces::NONE || (target < 12 && pieces::white_code(target) != white)
        &&& flag::promotes(m.flag) ==> kind == pieces::PAWN
        &&& m.flag == flag::DOUBLE_PAWN_PUSH ==> {
            &&& kind == pieces::PAWN
            &&& target == pieces::NONE
            &&& m.to == if white { m.from - 16 } else { m.from + 16 }
            &&& self.squares[if white { m.from - 8 } else { m.from + 8 }] == pieces::NONE
        }
        &&& m.flag == flag::EN_PASSANT ==> {
            &&& kind == pieces::PAWN
            &&& self.state().en_passant_square != 0
            &&& m.to == self.state().en_passant_square
        }
        &&& m.flag == flag::CASTLE_KINGSIDE ==> {
            &&& kind == pieces::KING
            &&& m.to == m.from + 2
            &&& m.to < 63
            &&& target == pieces::NONE
            &&& self.squares[m.to - 1] == pieces::NONE
            &&& self.squares[m.to + 1] == rook
        }
        &&& m.flag == flag::CASTLE_QUEENSIDE ==> {
            &&& kind == pieces::KING
            &&& m.to == m.from - 2
            &&& m.to >= 2
            &&& target == pieces::NONE
            &&& self.squares[m.to + 1] == pieces::NONE
            &&& self.squares[m.to - 2] == rook
        }
    }

    /// The position after a move.
    pub open spec fn made(self, m: MoveData) -> BoardView {
        let white = self.white_to_move;
        let squares = squares_after(self.squares, m, self.state().en_passant_square, white);
        let state = state_after(self.squares, self.state(), m, white);
        BoardView {
            squares,
            white_to_move: !white,
            states: self.states.push(state),
            keys: self.keys.push(
                position_key(squares, state.castling_rights.0, state.en_passant_square, !white),
            ),
        }
    }

    /// The position before the last move, given the move: the stacks lose
    /// their tops, the piece goes back, and what the move took comes back.
    pub open spec fn undone(self, m: MoveData) -> BoardView {
        let white = !self.white_to_move;
        let last = self.state();
        let earlier = self.states[self.states.len() - 2];
        let rook = pieces::piece_code(white, pieces::ROOK) as u8;
        let unmoved = self.squares.update(m.to as int, pieces::NONE).update(m.from as int, m.piece);
        let squares = if m.flag == flag::EN_PASSANT {
            unmoved.update(en_passant_victim(earlier.en_passant_square, white), last.capture)
        } else if last.capture != pieces::NONE {
            unmoved.update(m.to as int, last.capture)
        } else if m.flag == flag::CASTLE_KINGSIDE {
            unmoved.update(m.to - 1, pieces::NONE).update(m.to + 1, rook)
        } else if m.flag == flag::CASTLE_QUEENSIDE {
            unmoved.update(m.to + 1, pieces::NONE).update(m.to - 2, rook)
        } else {
            unmoved
        };
        BoardView {
            squares,
            white_to_move: white,
            states: self.states.drop_last(),
            keys: self.keys.drop_last(),
        }
    }

    /// Whether the position came about by the move `m` from a position in
    /// which that move could be made, so that the move can be taken back.
    pub open spec fn follows(self, m: MoveData) -> bool {
        &&& self.states.len() >= 2
        &&& self.keys.len() == self.states.len()
        &&& self.undone(m).wf()
        &&& self.undone(m).fits(m)
        &&& self.undone(m).made(m) == self
    }

    /// Whether the side to move is in check.
    pub open spec fn in_check(self) -> bool {
        king_attacked(self.squares, self.white_to_move)
    }
}

/// Taking a move back gives the position in which it was made: the squares,
/// the side to move, and the stacks of states and of keys.
pub proof fn lemma_undo_make(v: BoardView, m: MoveData)
    requires
        v.wf(),
        v.fits(m),
    ensures
        v.made(m).undone(m) == v,
        v.made(m).follows(m),
{
    let after = v.made(m);
    let back = after.undone(m);
    assert(after.states.drop_last() =~= v.states);
    assert(after.keys.drop_last() =~= v.keys);
    assert(after.states[after.states.len() - 2] == v.state());
    assert(back.squares =~= v.squares);
}

/// Changing the piece on one square changes the combined number of the
/// squares by the numbers of the old piece and of the new one.
pub proof fn lemma_squares_key_update(squares: Seq<u8>, i: int, piece: u8, n: nat)
    requires
        squares.len() == 64,
        0 <= i < 64,
        n <= 64,
    ensures
        squares_key(squares.update(i, piece), n) == if i < n {
            squares_key(squares, n) ^ piece_key(i, squares[i]) ^ piece_key(i, piece)
        } else {
            squares_key(squares, n)
        },
    decreases n,
{
    if n > 0 {
        lemma_squares_key_update(squares, i, piece, (n - 1) as nat);
        let a = squares_key(squares, (n - 1) as nat);
        let x = piece_key(i, squares[i]);
        let q = piece_key(i, piece);
        let z = piece_key(n - 1, squares[n - 1]);
        assert(a ^ q == ((a ^ x) ^ x) ^ q && ((a ^ x) ^ q) ^ z == ((a ^ z) ^ x) ^ q)
            by (bit_vector);
    }
}

/// The key that a move computes from the key before it is the key of the
/// position after it.
pub proof fn lemma_next_key(v: BoardView, m: MoveData)
    requires
        v.wf(),
        v.fits(m),
    ensures
        next_key(v.key(), m, v.state(), v.made(m).state()) == v.made(m).key(),
{
    let white = v.white_to_move;
    let before = v.state();
    let after = v.made(m).state();
    let s0 = v.squares;
    let s1 = s0.update(m.from as int, pieces::NONE);
    let s2 = s1.update(m.to as int, placed_piece(m));
    lemma_squares_key_update(s0, m.from as int, pieces::NONE, 64);
    lemma_squares_key_update(s1, m.to as int, placed_piece(m), 64);
    let k0 = squares_key(s0, 64);
    let k1 = squares_key(s1, 64);
    let k2 = squares_key(s2, 64);
    let a = piece_key(m.from as int, m.piece);
    let b = piece_key(m.to as int, placed_piece(m));
    let t = piece_key(m.to as int, s0[m.to as int]);
    let c0 = castling_key(before.castling_rights.0);
    let c1 = castling_key(after.castling_rights.0);
    let e0 = en_passant_key(before.en_passant_square);
    let e1 = en_passant_key(after.en_passant_square);
    let x = pcg64_output(SEED, SIDE_INDEX);
    let d0 = side_key(white);
    let d1 = side_key(!white);
    let key = v.key();
    let z: u64 = 0;
    assert(k1 == k0 ^ a ^ z);
    assert(k2 == k1 ^ t ^ b);
    if m.flag == flag::EN_PASSANT {
        let victim = en_passant_victim(before.en_passant_square, white);
        let s3 = s2.update(victim, pieces::NONE);
        lemma_squares_key_update(s2, victim, pieces::NONE, 64);
        let k3 = squares_key(s3, 64);
        let p = piece_key(victim, after.capture);
        assert(k3 == k2 ^ p ^ z);
        assert(key ^ a ^ b ^ z ^ p ^ c0 ^ c1 ^ e0 ^ e1 ^ x == k3 ^ c1 ^ e1 ^ d1) by (bit_vector)
            requires
                key == k0 ^ c0 ^ e0 ^ d0,
                k1 == k0 ^ a ^ z,
                k2 == k1 ^ t ^ b,
                k3 == k2 ^ p ^ z,
                z == 0,
                t == 0,
                (d0 == 0 && d1 == x) || (d0 == x && d1 == 0),
        ;
    } else if m.flag == flag::CASTLE_KINGSIDE || m.flag == flag::CASTLE_QUEENSIDE {
        let rook = pieces::piece_code(white, pieces::ROOK) as u8;
        let corner: int = if m.flag == flag::CASTLE_KINGSIDE { m.to + 1 } else { m.to - 2 };
        let beside: int = if m.flag == flag::CASTLE_KINGSIDE { m.to - 1 } else { m.to + 1 };
        let s3 = s2.update(corner, pieces::NONE);
        let s4 = s3.update(beside, rook);
        lemma_squares_key_update(s2, corner, pieces::NONE, 64);
        lemma_squares_key_update(s3, beside, rook, 64);
        let k3 = squares_key(s3, 64);
        let k4 = squares_key(s4, 64);
        let r1 = piece_key(corner, rook);
        let r2 = piece_key(beside, rook);
        assert(k3 == k2 ^ r1 ^ z);
        assert(k4 == k3 ^ z ^ r2);
        assert(key ^ a ^ b ^ (r1 ^ r2) ^ z ^ c0 ^ c1 ^ e0 ^ e1 ^ x == k4 ^ c1 ^ e1 ^ d1)
            by (bit_vector)
            requires
                key == k0 ^ c0 ^ e0 ^ d0,
                k1 == k0 ^ a ^ z,
                k2 == k1 ^ t ^ b,
                k3 == k2 ^ r1 ^ z,
                k4 == k3 ^ z ^ r2,
                z == 0,
                t == 0,
                (d0 == 0 && d1 == x) || (d0 == x && d1 == 0),
        ;
    } else {
        assert(key ^ a ^ b ^ z ^ t ^ c0 ^ c1 ^ e0 ^ e1 ^ x == k2 ^ c1 ^ e1 ^ d1) by (bit_vector)
            requires
                key == k0 ^ c0 ^ e0 ^ d0,
                k1 == k0 ^ a ^ z,
                k2 == k1 ^ t ^ b,
                z == 0,
                (d0 == 0 && d1 == x) || (d0 == x && d1 == 0),
        ;
    }
}

/// A move that fits a position leads to a position that is well formed: the
/// key on top of the stack is the key of the new position, castling rights
/// that are left still have their rook and king at home, and a new en passant
/// square has its pawn behind it.
pub proof fn lemma_made_wf(v: BoardView, m: MoveData)
    requires
        v.wf(),
        v.fits(m),
    ensures
        v.made(m).wf(),
{
    let after = v.made(m);
    let white = v.white_to_move;
    let capture = after.state().capture;
    lemma_rights_bits(
        v.state().castling_rights.white_kingside() && !(pieces::type_of(m.piece) == pieces::KING
            && white) && !corner_lost(m, capture, 63),
        v.state().castling_rights.white_queenside() && !(pieces::type_of(m.piece) == pieces::KING
            && white) && !corner_lost(m, capture, 56),
        v.state().castling_rights.black_kingside() && !(pieces::type_of(m.piece) == pieces::KING
            && !white) && !corner_lost(m, capture, 7),
        v.state().castling_rights.black_queenside() && !(pieces::type_of(m.piece) == pieces::KING
            && !white) && !corner_lost(m, capture, 0),
    );
    assert(after.state().castling_rights.wf());
    assert(after.castling_ok());
    assert(after.en_passant_ok());
}

/// The position after the first `n` moves of a line.
pub open spec fn played(v: BoardView, line: Seq<MoveData>, n: nat) -> BoardView
    decreases n,
{
    if n == 0 {
        v
    } else {
        played(v, line, (n - 1) as nat).made(line[n - 1])
    }
}

/// Whether each of the first `n` moves of a line fits the position in which
/// it is made.
pub open spec fn line_fits(v: BoardView, line: Seq<MoveData>, n: nat) -> bool {
    forall|k: nat| k < n ==> (#[trigger] played(v, line, k)).fits(line[k as int])
}

/// The position after the last `n` moves of a line have been taken back, the
/// last one first.
pub open spec fn taken_back(v: BoardView, line: Seq<MoveData>, n: nat) -> BoardView
    decreases n,
{
    if n == 0 {
        v
    } else {
        taken_back(v.undone(line[n - 1]), line, (n - 1) as nat)
    }
}

/// Every position of a line of moves that fit is well formed: its key is the
/// key of the position, computed from nothing but the position.
pub proof fn lemma_played_wf(v: BoardView, line: Seq<MoveData>, n: nat)
    requires
        v.wf(),
        n <= line.len(),
        line_fits(v, line, n),
    ensures
        played(v, line, n).wf(),
        played(v, line, n).key() == position_key(
            played(v, line, n).squares,
            played(v, line, n).state().castling_rights.0,
            played(v, line, n).state().en_passant_square,
            played(v, line, n).white_to_move,
        ),
        played(v, line, n).states.len() == v.states.len() + n,
    decreases n,
{
    if n > 0 {
        let before = (n - 1) as nat;
        lemma_played_wf(v, line, before);
        assert(played(v, line, before).fits(line[before as int]));
        lemma_made_wf(played(v, line, before), line[before as int]);
    }
}

/// A line of moves played and taken back, the last move first, leaves the
/// position as it was: the pieces, the side to move, the states with their
/// castling rights, en passant squares and clocks, and the keys.
pub proof fn lemma_line_taken_back(v: BoardView, line: Seq<MoveData>, n: nat)
    requires
        v.wf(),
        n <= line.len(),
        line_fits(v, line, n),
    ensures
        taken_back(played(v, line, n), line, n) == v,
    decreases n,
{
    if n > 0 {
        let before = (n - 1) as nat;
        assert(played(v, line, before).fits(line[before as int]));
        lemma_played_wf(v, line, before);
        lemma_undo_make(played(v, line, before), line[before as int]);
        lemma_line_taken_back(v, line, before);
    }
}

} // verus!
