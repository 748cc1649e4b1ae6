//! The position: where the pieces stand, who is to move, and the stack of
//! what a move cannot recompute when it is taken back.

use vstd::prelude::*;
use crate::attacks::{get_bishop_moves, get_rook_moves, king_attacks, knight_attacks, pawn_attacks};
use crate::castling_rights::{lemma_rights_bits, lemma_rights_equal};
use crate::move_data::flag;
use crate::move_data::MoveData;
use crate::pieces;
use crate::position::{
    attacked,
    attacks_from,
    corner_lost,
    is_king_square,
    king_attacked,
    lemma_made_wf,
    lemma_next_key,
    lemma_occupancy,
    lemma_undo_make,
    occupancy,
    squares_after,
    state_after,
};
use crate::utils::{
    bit_of,
    get_lsb,
    has_bit,
    lemma_bit_and,
    lemma_bit_or,
    lemma_bit_xor,
    lemma_bit_zero,
    lemma_bits_equal,
    lemma_nonzero_has_bit,
    square_bit,
    test_bit,
};
use crate::value_holder::ValueHolder;
use crate::zobrist::Zobrist;
pub use crate::position::{BoardState, BoardView};

verus! {

/// The position as the engine holds it: a board of squares for each of the
/// twelve pieces and for each colour, the side to move, and the stacks of
/// keys and of states.
#[derive(Clone)]
pub struct Board {
    pub piece_bitboards: [u64; 12],
    pub color_bitboards: [u64; 2],
    pub white_to_move: bool,
    pub zobrist: Zobrist,
    pub history: ValueHolder<BoardState>,
}

/// The piece whose board has the square on it: the first such piece, or
/// `pieces::NONE` if no board has it.
pub open spec fn piece_on(boards: [u64; 12], square: u8) -> u8 {
    if has_bit(boards[0], square) {
        0
    } else if has_bit(boards[1], square) {
        1
    } else if has_bit(boards[2], square) {
        2
    } else if has_bit(boards[3], square) {
        3
    } else if has_bit(boards[4], square) {
        4
    } else if has_bit(boards[5], square) {
        5
    } else if has_bit(boards[6], square) {
        6
    } else if has_bit(boards[7], square) {
        7
    } else if has_bit(boards[8], square) {
        8
    } else if has_bit(boards[9], square) {
        9
    } else if has_bit(boards[10], square) {
        10
    } else if has_bit(boards[11], square) {
        11
    } else {
        12
    }
}

impl View for Board {
    type V = BoardView;

    open spec fn view(&self) -> BoardView {
        BoardView {
            squares: Seq::new(64, |i: int| piece_on(self.piece_bitboards, i as u8)),
            white_to_move: self.white_to_move,
            states: self.history@,
            keys: self.zobrist.key@,
        }
    }
}

impl Board {
    /// The boards agree with each other, the stacks are in order, and the
    /// position is well formed.
    pub open spec fn wf(&self) -> bool {
        &&& self.layout_ok()
        &&& self.history.wf()
        &&& self.zobrist.wf()
        &&& self@.wf()
    }

    /// No square holds two pieces, and the two boards of the colours hold the
    /// squares of the pieces of their colour.
    pub open spec fn layout_ok(&self) -> bool {
        &&& forall|square: u8, piece: u8|
            square < 64 && piece < 12 && #[trigger] has_bit(
                self.piece_bitboards[piece as int],
                square,
            ) ==> piece_on(self.piece_bitboards, square) == piece
        &&& forall|square: u8|
            square < 64 ==> #[trigger] has_bit(self.color_bitboards[0], square) == (piece_on(
                self.piece_bitboards,
                square,
            ) < 6)
        &&& forall|square: u8|
            square < 64 ==> #[trigger] has_bit(self.color_bitboards[1], square) == (6 <= piece_on(
                self.piece_bitboards,
                square,
            ) < 12)
    }

    /// The piece on a square, `pieces::NONE` for an empty one.
    pub fn get(&self, i: u8) -> (piece: u8)
        requires
            i < 64,
        ensures
            piece == self@.squares[i as int],
            piece <= pieces::NONE,
    {
        let mut piece: u8 = 0;
        while piece < pieces::COUNT
            invariant
                i < 64,
                piece <= pieces::COUNT,
                forall|p: u8| p < piece ==> !has_bit(self.piece_bitboards[p as int], i),
            decreases pieces::COUNT - piece,
        {
            if test_bit(self.piece_bitboards[piece as usize], i) {
                return piece;
            }
            piece += 1;
        }
        pieces::NONE
    }

    /// The board of the occupied squares.
    pub fn occupied_bitboard(&self) -> (occupied: u64)
        ensures
            occupied == self.color_bitboards[0] | self.color_bitboards[1],
            self.layout_ok() ==> occupied == occupancy(self@.squares),
    {
        let occupied = self.color_bitboards[0] | self.color_bitboards[1];
        proof {
            if self.layout_ok() {
                lemma_occupancy(self@.squares);
                assert forall|j: u8| j < 64 implies has_bit(occupied, j) == has_bit(
                    occupancy(self@.squares),
                    j,
                ) by {
                    lemma_bit_or(self.color_bitboards[0], self.color_bitboards[1], j);
                }
                lemma_bits_equal(occupied, occupancy(self@.squares));
            }
        }
        occupied
    }

    /// Puts a piece on a square if it is not there, and takes it off if it is:
    /// the square is flipped on the board of the piece and on that of its
    /// colour.
    pub fn toggle_piece(&mut self, piece: u8, square: u8)
        requires
            piece < 12,
            square < 64,
        ensures
            final(self).piece_bitboards@ == old(self).piece_bitboards@.update(
                piece as int,
                old(self).piece_bitboards[piece as int] ^ bit_of(square),
            ),
            final(self).color_bitboards@ == old(self).color_bitboards@.update(
                if pieces::white_code(piece) { 1int } else { 0int },
                old(self).color_bitboards[if pieces::white_code(piece) { 1int } else { 0int }]
                    ^ bit_of(square),
            ),
            final(self).white_to_move == old(self).white_to_move,
            final(self).zobrist == old(self).zobrist,
            final(self).history == old(self).history,
            old(self).layout_ok() && old(self)@.squares[square as int] == piece
                ==> final(self).layout_ok() && final(self)@.squares == old(self)@.squares.update(
                square as int,
                pieces::NONE,
            ),
            old(self).layout_ok() && old(self)@.squares[square as int] == pieces::NONE
                ==> final(self).layout_ok() && final(self)@.squares == old(self)@.squares.update(
                square as int,
                piece,
            ),
    {
        let mask = square_bit(square);
        let color = pieces::get_color_index(piece);
        self.piece_bitboards[piece as usize] ^= mask;
        self.color_bitboards[color] ^= mask;
        proof {
            let before = old(self).piece_bitboards;
            let after = self.piece_bitboards;
            assert forall|s: u8, p: u8| s < 64 && p < 12 implies #[trigger] has_bit(
                after[p as int],
                s,
            ) == (has_bit(before[p as int], s) != (p == piece && s == square)) by {
                lemma_bit_xor(before[piece as int], mask, s);
            }
            assert forall|s: u8| s < 64 implies #[trigger] has_bit(
                self.color_bitboards[color as int],
                s,
            ) == (has_bit(old(self).color_bitboards[color as int], s) != (s == square)) by {
                lemma_bit_xor(old(self).color_bitboards[color as int], mask, s);
            }
            if old(self).layout_ok() && old(self)@.squares[square as int] == piece {
                assert forall|s: u8| s < 64 implies piece_on(after, s) == if s == square {
                    pieces::NONE
                } else {
                    piece_on(before, s)
                } by {}
                assert(self@.squares =~= old(self)@.squares.update(square as int, pieces::NONE));
                assert(self.layout_ok());
            }
            if old(self).layout_ok() && old(self)@.squares[square as int] == pieces::NONE {
                assert forall|s: u8| s < 64 implies piece_on(after, s) == if s == square {
                    piece
                } else {
                    piece_on(before, s)
                } by {}
                assert(self@.squares =~= old(self)@.squares.update(square as int, piece));
                assert(self.layout_ok());
            }
        }
    }

    /// Moves a piece from one square to another: both squares are flipped on
    /// the board of the piece and on that of its colour.
    pub fn move_piece(&mut self, piece: u8, from: u8, to: u8)
        requires
            piece < 12,
            from < 64,
            to < 64,
        ensures
            final(self).piece_bitboards@ == old(self).piece_bitboards@.update(
                piece as int,
                (old(self).piece_bitboards[piece as int] ^ bit_of(from)) ^ bit_of(to),
            ),
            final(self).color_bitboards@ == old(self).color_bitboards@.update(
                if pieces::white_code(piece) { 1int } else { 0int },
                (old(self).color_bitboards[if pieces::white_code(piece) { 1int } else { 0int }]
                    ^ bit_of(from)) ^ bit_of(to),
            ),
            final(self).white_to_move == old(self).white_to_move,
            final(self).zobrist == old(self).zobrist,
            final(self).history == old(self).history,
            old(self).layout_ok()
                && old(self)@.squares[from as int] == piece
                && old(self)@.squares[to as int] == pieces::NONE
                ==> final(self).layout_ok() && final(self)@.squares == old(self)@.squares.update(
                from as int,
                pieces::NONE,
            ).update(to as int, piece),
    {
        self.toggle_piece(piece, from);
        self.toggle_piece(piece, to);
        proof {
            assert(self.piece_bitboards@ =~= old(self).piece_bitboards@.update(
                piece as int,
                (old(self).piece_bitboards[piece as int] ^ bit_of(from)) ^ bit_of(to),
            ));
            assert(self.color_bitboards@ =~= old(self).color_bitboards@.update(
                if pieces::white_code(piece) { 1int } else { 0int },
                (old(self).color_bitboards[if pieces::white_code(piece) { 1int } else { 0int }]
                    ^ bit_of(from)) ^ bit_of(to),
            ));
        }
    }

    /// The squares from which the side that is not to move attacks a square.
    pub fn get_attackers_of(&self, square: u8) -> (attackers: u64)
        requires
            self.layout_ok(),
            square < 64,
        ensures
            forall|j: u8|
                j < 64 ==> #[trigger] has_bit(attackers, j) == attacks_from(
                    self@.squares,
                    square,
                    !self.white_to_move,
                    j,
                ),
            attackers != 0 <==> attacked(self@.squares, square, !self.white_to_move),
    {
        self.get_attackers_by(square, !self.white_to_move)
    }

    /// The squares from which a side attacks a square. They are found
    /// backwards: a piece of each kind is thought to stand on the square, and
    /// the pieces of that kind and of that side which it would attack are the
    /// attackers.
    pub fn get_attackers_by(&self, square: u8, by_white: bool) -> (attackers: u64)
        requires
            self.layout_ok(),
            square < 64,
        ensures
            forall|j: u8|
                j < 64 ==> #[trigger] has_bit(attackers, j) == attacks_from(
                    self@.squares,
                    square,
                    by_white,
                    j,
                ),
            attackers != 0 <==> attacked(self@.squares, square, by_white),
    {
        let occupied = self.occupied_bitboard();
        let other_color = by_white;
        let other_queens = self.piece_bitboards[pieces::build_piece(
            other_color,
            pieces::QUEEN,
        ) as usize];
        let other_pawns = self.piece_bitboards[pieces::build_piece(
            other_color,
            pieces::PAWN,
        ) as usize];
        let other_knights = self.piece_bitboards[pieces::build_piece(
            other_color,
            pieces::KNIGHT,
        ) as usize];
        let other_bishops = self.piece_bitboards[pieces::build_piece(
            other_color,
            pieces::BISHOP,
        ) as usize];
        let other_rooks = self.piece_bitboards[pieces::build_piece(
            other_color,
            pieces::ROOK,
        ) as usize];
        let other_kings = self.piece_bitboards[pieces::build_piece(
            other_color,
            pieces::KING,
        ) as usize];
        let pawn_set = pawn_attacks(square, !by_white);
        let knight_set = knight_attacks(square);
        let bishop_set = get_bishop_moves(square, occupied);
        let rook_set = get_rook_moves(square, occupied);
        let king_set = king_attacks(square);
        let by_pawns = pawn_set & other_pawns;
        let by_knights = knight_set & other_knights;
        let by_diagonal = bishop_set & (other_bishops | other_queens);
        let by_line = rook_set & (other_rooks | other_queens);
        let by_kings = king_set & other_kings;
        let attackers = by_pawns | by_knights | by_diagonal | by_line | by_kings;
        proof {
            assert forall|j: u8| j < 64 implies #[trigger] has_bit(attackers, j) == attacks_from(
                self@.squares,
                square,
                by_white,
                j,
            ) by {
                lemma_bit_and(pawn_set, other_pawns, j);
                lemma_bit_and(knight_set, other_knights, j);
                lemma_bit_or(other_bishops, other_queens, j);
                lemma_bit_and(bishop_set, other_bishops | other_queens, j);
                lemma_bit_or(other_rooks, other_queens, j);
                lemma_bit_and(rook_set, other_rooks | other_queens, j);
                lemma_bit_and(king_set, other_kings, j);
                lemma_bit_or(by_pawns, by_knights, j);
                lemma_bit_or(by_pawns | by_knights, by_diagonal, j);
                lemma_bit_or(by_pawns | by_knights | by_diagonal, by_line, j);
                lemma_bit_or(by_pawns | by_knights | by_diagonal | by_line, by_kings, j);
                assert(self@.squares[j as int] == piece_on(self.piece_bitboards, j));
            }
            lemma_nonzero_has_bit(attackers);
            let squares = self@.squares;
            if attackers == 0 {
                assert forall|j: u8| j < 64 implies !#[trigger] attacks_from(
                    squares,
                    square,
                    other_color,
                    j,
                ) by {
                    lemma_bit_zero(j);
                    assert(!has_bit(attackers, j));
                }
            } else {
                let first = attackers.trailing_zeros() as u8;
                assert(has_bit(attackers, first));
                assert(attacks_from(self@.squares, square, by_white, first));
            }
        }
        attackers
    }

    /// Whether the king of the side to move stands attacked. A side without
    /// a king counts as in check.
    pub fn in_check(&self) -> (check: bool)
        requires
            self.layout_ok(),
        ensures
            check == king_attacked(self@.squares, self.white_to_move),
    {
        let king = pieces::build_piece(self.white_to_move, pieces::KING);
        let king_bitboard = self.piece_bitboards[king as usize];
        if king_bitboard == 0 {
            proof {
                assert forall|j: u8| j < 64 implies self@.squares[j as int] != king by {
                    lemma_bit_zero(j);
                    assert(self@.squares[j as int] == piece_on(self.piece_bitboards, j));
                }
            }
            return true;
        }
        let square = get_lsb(king_bitboard);
        let attackers = self.get_attackers_of(square);
        proof {
            assert forall|j: u8| j < 64 implies (self@.squares[j as int] == king) == has_bit(
                king_bitboard,
                j,
            ) by {
                assert(self@.squares[j as int] == piece_on(self.piece_bitboards, j));
            }
            assert(is_king_square(self@.squares, self.white_to_move, square));
            assert(self@.squares[square as int] == king);
            assert(crate::position::has_king(self@.squares, self.white_to_move));
            assert forall|other: u8|
                is_king_square(self@.squares, self.white_to_move, other) implies other
                == square by {}
        }
        attackers != 0
    }

    /// Makes a move, and takes it back at once if it leaves the king of the
    /// side that moved attacked. Returns whether the move stands.
    pub fn make_move(&mut self, data: &MoveData) -> (legal: bool)
        requires
            old(self).wf(),
            old(self)@.fits(*data),
        ensures
            final(self).wf(),
            legal == !king_attacked(old(self)@.made(*data).squares, old(self).white_to_move),
            legal ==> final(self)@ == old(self)@.made(*data),
            !legal ==> final(self)@ == old(self)@,
            !legal
                ==> final(self).piece_bitboards == old(self).piece_bitboards
                    && final(self).color_bitboards == old(self).color_bitboards,
    {
        let ghost before = self@;
        let ghost after = before.made(*data);
        let white = self.white_to_move;
        let previous_state = self.history.peek();
        let mut new_state = previous_state;
        let target = self.get(data.to);
        new_state.capture = target;
        if new_state.halfmove_clock < u8::MAX {
            new_state.halfmove_clock += 1;
        }
        if target != pieces::NONE {
            self.toggle_piece(target, data.to);
        }
        let ghost cleared = before.squares.update(data.to as int, pieces::NONE);
        assert(self@.squares =~= cleared);
        if flag::is_promotion(data.flag) {
            self.toggle_piece(data.piece, data.from);
            self.toggle_piece(pieces::build_piece(white, data.flag), data.to);
        } else {
            self.move_piece(data.piece, data.from, data.to);
        }
        let ghost moved = before.squares.update(data.from as int, pieces::NONE).update(
            data.to as int,
            crate::zobrist::placed_piece(*data),
        );
        assert(self@.squares =~= moved);
        if data.flag == flag::DOUBLE_PAWN_PUSH {
            new_state.en_passant_square = if white {
                data.to + 8
            } else {
                data.to - 8
            };
        } else {
            if data.flag == flag::EN_PASSANT {
                let pawn_square: u8 = if white {
                    new_state.en_passant_square + 8
                } else {
                    new_state.en_passant_square - 8
                };
                let pawn_captured = pieces::build_piece(!white, pieces::PAWN);
                self.toggle_piece(pawn_captured, pawn_square);
                new_state.capture = pawn_captured;
            } else {
                let piece_type = pieces::get_type(data.piece);
                if piece_type == pieces::KING {
                    new_state.castling_rights.remove_both(white);
                    if data.flag == flag::CASTLE_KINGSIDE {
                        let rook = pieces::build_piece(white, pieces::ROOK);
                        self.move_piece(rook, data.to + 1, data.to - 1);
                    } else if data.flag == flag::CASTLE_QUEENSIDE {
                        let rook = pieces::build_piece(white, pieces::ROOK);
                        self.move_piece(rook, data.to - 2, data.to + 1);
                    }
                } else if piece_type == pieces::ROOK {
                    new_state.castling_rights.remove_one(data.from);
                }
                if target != pieces::NONE && pieces::get_type(target) == pieces::ROOK {
                    new_state.castling_rights.remove_one(data.to);
                }
            }
            new_state.en_passant_square = 0;
        }
        if new_state.capture != pieces::NONE || pieces::get_type(data.piece) == pieces::PAWN {
            new_state.halfmove_clock = 0;
        }
        proof {
            assert(self@.squares =~= after.squares);
            let expected = after.state();
            assert(after.states.last() == state_after(
                before.squares,
                before.state(),
                *data,
                white,
            ));
            lemma_made_wf(before, *data);
            if !(data.flag == flag::DOUBLE_PAWN_PUSH || data.flag == flag::EN_PASSANT) {
                let king = pieces::type_of(data.piece) == pieces::KING;
                let old_rights = previous_state.castling_rights;
                lemma_rights_bits(
                    old_rights.white_kingside() && !(king && white) && !corner_lost(
                        *data,
                        target,
                        63,
                    ),
                    old_rights.white_queenside() && !(king && white) && !corner_lost(
                        *data,
                        target,
                        56,
                    ),
                    old_rights.black_kingside() && !(king && !white) && !corner_lost(
                        *data,
                        target,
                        7,
                    ),
                    old_rights.black_queenside() && !(king && !white) && !corner_lost(
                        *data,
                        target,
                        0,
                    ),
                );
                lemma_rights_equal(new_state.castling_rights, expected.castling_rights);
            }
            assert(new_state == expected);
            lemma_next_key(before, *data);
        }
        self.zobrist.make_move(data, &previous_state, &new_state);
        self.history.push(new_state);
        assert(self@.keys =~= after.keys);
        assert(self@.states =~= after.states);
        if self.in_check() {
            self.white_to_move = !self.white_to_move;
            proof {
                assert(self@ == after);
                lemma_undo_make(before, *data);
            }
            self.undo_move(data);
            proof {
                lemma_layout_determined(self, old(self));
            }
            return false;
        }
        self.white_to_move = !self.white_to_move;
        assert(self@ == after);
        true
    }

    /// Takes back the last move, which must be the one given.
    pub fn undo_move(&mut self, data: &MoveData)
        requires
            old(self).layout_ok(),
            old(self).history.wf(),
            old(self).zobrist.wf(),
            old(self)@.follows(*data),
        ensures
            final(self).wf(),
            final(self)@ == old(self)@.undone(*data),
    {
        if !self.history.is_empty() {
            let ghost after = self@;
            let ghost before = after.undone(*data);
            let last_state = self.history.peek();
            self.zobrist.key.pop();
            self.history.pop();
            self.white_to_move = !self.white_to_move;
            let white = self.white_to_move;
            proof {
                assert(after.squares == squares_after(
                    before.squares,
                    *data,
                    before.state().en_passant_square,
                    white,
                ));
                assert(last_state == state_after(before.squares, before.state(), *data, white));
                assert(self@.squares == after.squares);
            }
            if flag::is_promotion(data.flag) {
                self.toggle_piece(data.piece, data.from);
                self.toggle_piece(pieces::build_piece(white, data.flag), data.to);
            } else {
                self.move_piece(data.piece, data.to, data.from);
            }
            let ghost unmoved = after.squares.update(data.to as int, pieces::NONE).update(
                data.from as int,
                data.piece,
            );
            assert(self@.squares =~= unmoved);
            if data.flag == flag::EN_PASSANT {
                let en_passant_square = self.history.peek().en_passant_square;
                let pawn_square: u8 = if white {
                    en_passant_square + 8
                } else {
                    en_passant_square - 8
                };
                self.toggle_piece(last_state.capture, pawn_square);
            } else if last_state.capture != pieces::NONE {
                self.toggle_piece(last_state.capture, data.to);
            } else if data.flag == flag::CASTLE_KINGSIDE {
                let rook = pieces::build_piece(white, pieces::ROOK);
                self.move_piece(rook, data.to - 1, data.to + 1);
            } else if data.flag == flag::CASTLE_QUEENSIDE {
                let rook = pieces::build_piece(white, pieces::ROOK);
                self.move_piece(rook, data.to + 1, data.to - 2);
            }
            proof {
                assert(self@.squares =~= before.squares);
                assert(self@ == before);
            }
        }
    }
}

/// The boards of a position are what its squares say: two boards that are in
/// order and have the same pieces on the same squares are equal bit for bit.
pub proof fn lemma_layout_determined(a: &Board, b: &Board)
    requires
        a.layout_ok(),
        b.layout_ok(),
        a@.squares == b@.squares,
    ensures
        a.piece_bitboards == b.piece_bitboards,
        a.color_bitboards == b.color_bitboards,
{
    assert forall|j: u8| j < 64 implies piece_on(a.piece_bitboards, j) == piece_on(
        b.piece_bitboards,
        j,
    ) by {
        assert(a@.squares[j as int] == piece_on(a.piece_bitboards, j));
        assert(b@.squares[j as int] == piece_on(b.piece_bitboards, j));
    }
    assert forall|p: int| 0 <= p < 12 implies a.piece_bitboards[p] == b.piece_bitboards[p] by {
        assert forall|j: u8| j < 64 implies has_bit(a.piece_bitboards[p], j) == has_bit(
            b.piece_bitboards[p],
            j,
        ) by {
            assert(has_bit(a.piece_bitboards[p as u8 as int], j) ==> piece_on(
                a.piece_bitboards,
                j,
            ) == p);
            assert(has_bit(b.piece_bitboards[p as u8 as int], j) ==> piece_on(
                b.piece_bitboards,
                j,
            ) == p);
        }
        lemma_bits_equal(a.piece_bitboards[p], b.piece_bitboards[p]);
    }
    assert(a.piece_bitboards@ =~= b.piece_bitboards@);
    assert forall|c: int| 0 <= c < 2 implies a.color_bitboards[c] == b.color_bitboards[c] by {
        assert forall|j: u8| j < 64 implies has_bit(a.color_bitboards[c], j) == has_bit(
            b.color_bitboards[c],
            j,
        ) by {}
        lemma_bits_equal(a.color_bitboards[c], b.color_bitboards[c]);
    }
    assert(a.color_bitboards@ =~= b.color_bitboards@);
}

} // verus!
