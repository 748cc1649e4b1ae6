//! Move generation: the moves of the side to move that follow the pieces'
//! ways of moving. Whether a move leaves the own king attacked is not asked
//! here; `Board::make_move` finds that out.

use vstd::prelude::*;
use crate::attacks::{
    bishop_reaches,
    get_bishop_moves,
    get_rook_moves,
    king_attacks,
    king_step,
    knight_attacks,
    knight_jump,
    pawn_attack,
    pawn_attacks,
    rook_reaches,
};
use crate::board::Board;
use crate::castling_rights::{CASTLE_KINGSIDE_MASK, CASTLE_QUEENSIDE_MASK};
use crate::move_data::flag;
use crate::move_data::{move_of_coordinates, MoveData};
use crate::position::king_attacked;
use crate::move_list::MoveList;
use crate::pieces;
use crate::position::{attacked, lemma_occupancy, occupancy, BoardView};
use crate::utils::{
    has_bit,
    lemma_bit_and,
    lemma_bit_not,
    lemma_bit_or,
    lemma_bit_zero,
    pop_lsb,
    test_bit,
};

verus! {

pub const ALL_MOVES: bool = false;
pub const CAPTURES_ONLY: bool = true;

/// The moves of a piece to one square: one plain move, or the four
/// promotions, to knight, bishop, rook and queen in that order.
pub open spec fn target_moves(from: u8, to: u8, piece: u8, promote: bool) -> Seq<MoveData> {
    if promote {
        seq![
            MoveData { from, to, piece, flag: flag::PROMOTE_KNIGHT },
            MoveData { from, to, piece, flag: flag::PROMOTE_BISHOP },
            MoveData { from, to, piece, flag: flag::PROMOTE_ROOK },
            MoveData { from, to, piece, flag: flag::PROMOTE_QUEEN },
        ]
    } else {
        seq![MoveData { from, to, piece, flag: flag::NONE }]
    }
}

/// The moves of a piece to the squares below `n` that `targets` holds, in the
/// order of the squares.
pub open spec fn moves_to(
    from: u8,
    piece: u8,
    targets: spec_fn(u8) -> bool,
    promote: bool,
    n: nat,
) -> Seq<MoveData>
    decreases n,
{
    if n == 0 {
        Seq::empty()
    } else {
        let rest = moves_to(from, piece, targets, promote, (n - 1) as nat);
        if targets((n - 1) as u8) {
            rest + target_moves(from, (n - 1) as u8, piece, promote)
        } else {
            rest
        }
    }
}

/// Moves as a move list holds them when they are generated: with score 0.
pub open spec fn unscored(moves: Seq<MoveData>) -> Seq<(MoveData, i16)> {
    Seq::new(moves.len(), |i: int| (moves[i], 0i16))
}

/// Moves put together and then given the score 0 are the same as moves given
/// the score 0 and then put together.
pub proof fn lemma_unscored_add(a: Seq<MoveData>, b: Seq<MoveData>)
    ensures
        unscored(a + b) =~= unscored(a) + unscored(b),
        unscored(Seq::<MoveData>::empty()) =~= Seq::<(MoveData, i16)>::empty(),
{
}

/// Squares that `targets` does not hold add no moves.
pub proof fn lemma_moves_to_skip(
    from: u8,
    piece: u8,
    targets: spec_fn(u8) -> bool,
    promote: bool,
    low: nat,
    high: nat,
)
    requires
        low <= high <= 64,
        forall|j: u8| low <= j < high ==> !#[trigger] targets(j),
    ensures
        moves_to(from, piece, targets, promote, high) == moves_to(
            from,
            piece,
            targets,
            promote,
            low,
        ),
    decreases high - low,
{
    if low < high {
        lemma_moves_to_skip(from, piece, targets, promote, low, (high - 1) as nat);
    }
}

/// Two sets of targets with the same squares give the same moves.
pub proof fn lemma_moves_to_same(
    from: u8,
    piece: u8,
    first: spec_fn(u8) -> bool,
    second: spec_fn(u8) -> bool,
    promote: bool,
    n: nat,
)
    requires
        n <= 64,
        forall|j: u8| j < 64 ==> #[trigger] first(j) == second(j),
    ensures
        moves_to(from, piece, first, promote, n) == moves_to(from, piece, second, promote, n),
    decreases n,
{
    if n > 0 {
        lemma_moves_to_same(from, piece, first, second, promote, (n - 1) as nat);
    }
}

/// Every move to a target has the given origin and piece, goes to a target,
/// and is plain or a promotion as asked.
pub proof fn lemma_moves_to_members(
    from: u8,
    piece: u8,
    targets: spec_fn(u8) -> bool,
    promote: bool,
    n: nat,
)
    requires
        n <= 64,
    ensures
        forall|k: int|
            0 <= k < moves_to(from, piece, targets, promote, n).len() ==> {
                let m = #[trigger] moves_to(from, piece, targets, promote, n)[k];
                &&& m.from == from
                &&& m.piece == piece
                &&& m.to < n
                &&& targets(m.to)
                &&& if promote {
                    flag::promotes(m.flag)
                } else {
                    m.flag == flag::NONE
                }
            },
    decreases n,
{
    if n > 0 {
        lemma_moves_to_members(from, piece, targets, promote, (n - 1) as nat);
        let rest = moves_to(from, piece, targets, promote, (n - 1) as nat);
        let all = moves_to(from, piece, targets, promote, n);
        let added = target_moves(from, (n - 1) as u8, piece, promote);
        assert forall|k: int| 0 <= k < all.len() implies {
            let m = #[trigger] all[k];
            &&& m.from == from
            &&& m.piece == piece
            &&& m.to < n
            &&& targets(m.to)
            &&& if promote {
                flag::promotes(m.flag)
            } else {
                m.flag == flag::NONE
            }
        } by {
            if k < rest.len() {
                assert(all[k] == rest[k]);
            } else {
                assert(all[k] == added[k - rest.len()]);
            }
        }
    }
}

impl BoardView {
    /// Whether a piece of the side to move stands on a square.
    pub open spec fn own_at(self, square: u8) -> bool {
        let piece = self.squares[square as int];
        piece < 12 && pieces::white_code(piece) == self.white_to_move
    }

    /// Whether a piece of the other side stands on a square.
    pub open spec fn enemy_at(self, square: u8) -> bool {
        let piece = self.squares[square as int];
        piece < 12 && pieces::white_code(piece) != self.white_to_move
    }

    /// Whether a piece that is no pawn, standing on `from`, attacks `to`.
    pub open spec fn reaches(self, from: u8, to: u8) -> bool {
        let kind = pieces::type_of(self.squares[from as int]);
        let occupied = occupancy(self.squares);
        if kind == pieces::KNIGHT {
            knight_jump(from, to)
        } else if kind == pieces::BISHOP {
            bishop_reaches(from, occupied, to)
        } else if kind == pieces::ROOK {
            rook_reaches(from, occupied, to)
        } else if kind == pieces::QUEEN {
            bishop_reaches(from, occupied, to) || rook_reaches(from, occupied, to)
        } else {
            king_step(from, to)
        }
    }

    /// The squares that a piece that is no pawn may move to: those that it
    /// attacks and that hold no piece of its own side; when only captures are
    /// asked for, those of them that hold a piece of the other side.
    pub open spec fn piece_targets(self, from: u8, captures_only: bool) -> spec_fn(u8) -> bool {
        |to: u8|
            self.reaches(from, to) && !self.own_at(to) && (captures_only ==> self.enemy_at(to))
    }

    /// The squares on which a pawn may capture: those that it attacks and that
    /// hold a piece of the other side.
    pub open spec fn pawn_targets(self, from: u8) -> spec_fn(u8) -> bool {
        |to: u8| pawn_attack(from, self.white_to_move, to) && self.enemy_at(to)
    }

    /// Whether a pawn on `from` promotes with its next move.
    pub open spec fn promotes_from(self, from: u8) -> bool {
        from / 8 == if self.white_to_move { 1int } else { 6int }
    }

    /// The advances of a pawn: one step onto an empty square, as a plain move
    /// or as four promotions, and from its starting row a double step if the
    /// second square is empty too.
    pub open spec fn pawn_pushes(self, from: u8) -> Seq<MoveData> {
        let piece = self.squares[from as int];
        let white = self.white_to_move;
        let single: int = if white { from - 8 } else { from + 8 };
        let double: int = if white { from - 16 } else { from + 16 };
        let start_row = if white { 6int } else { 1int };
        if 0 <= single < 64 && self.squares[single] == pieces::NONE {
            target_moves(from, single as u8, piece, self.promotes_from(from)) + if from / 8
                == start_row && self.squares[double] == pieces::NONE {
                seq![MoveData { from, to: double as u8, piece, flag: flag::DOUBLE_PAWN_PUSH }]
            } else {
                Seq::empty()
            }
        } else {
            Seq::empty()
        }
    }

    /// The en passant capture of a pawn, if it attacks the en passant square.
    pub open spec fn pawn_en_passant(self, from: u8) -> Seq<MoveData> {
        let square = self.state().en_passant_square;
        if square != 0 && pawn_attack(from, self.white_to_move, square) {
            seq![
                MoveData {
                    from,
                    to: square,
                    piece: self.squares[from as int],
                    flag: flag::EN_PASSANT,
                },
            ]
        } else {
            Seq::empty()
        }
    }

    /// The moves of a pawn: advances (unless only captures are asked for),
    /// captures, en passant.
    pub open spec fn pawn_moves(self, from: u8, captures_only: bool) -> Seq<MoveData> {
        (if captures_only {
            Seq::empty()
        } else {
            self.pawn_pushes(from)
        }) + moves_to(
            from,
            self.squares[from as int],
            self.pawn_targets(from),
            self.promotes_from(from),
            64,
        ) + self.pawn_en_passant(from)
    }

    /// Whether the king on `from` may castle on the king's side: the right is
    /// held, the two squares between king and rook are empty, the king is not
    /// in check, and the square that it crosses is not attacked.
    pub open spec fn may_castle_kingside(self, from: u8) -> bool {
        let white = self.white_to_move;
        &&& self.state().castling_rights.has_kingside(white)
        &&& self.squares[if white { 61int } else { 5int }] == pieces::NONE
        &&& self.squares[if white { 62int } else { 6int }] == pieces::NONE
        &&& !self.in_check()
        &&& !attacked(self.squares, (from + 1) as u8, !white)
    }

    /// Whether the king on `from` may castle on the queen's side: the right
    /// is held, the three squares between king and rook are empty, the king
    /// is not in check, and the square that it crosses is not attacked.
    pub open spec fn may_castle_queenside(self, from: u8) -> bool {
        let white = self.white_to_move;
        &&& self.state().castling_rights.has_queenside(white)
        &&& self.squares[if white { 57int } else { 1int }] == pieces::NONE
        &&& self.squares[if white { 58int } else { 2int }] == pieces::NONE
        &&& self.squares[if white { 59int } else { 3int }] == pieces::NONE
        &&& !self.in_check()
        &&& !attacked(self.squares, (from - 1) as u8, !white)
    }

    /// The castling moves of the king on `from`: the king goes two squares
    /// towards the rook.
    pub open spec fn castling_moves(self, from: u8) -> Seq<MoveData> {
        let piece = self.squares[from as int];
        (if self.may_castle_kingside(from) {
            seq![MoveData { from, to: (from + 2) as u8, piece, flag: flag::CASTLE_KINGSIDE }]
        } else {
            Seq::empty()
        }) + if self.may_castle_queenside(from) {
            seq![MoveData { from, to: (from - 2) as u8, piece, flag: flag::CASTLE_QUEENSIDE }]
        } else {
            Seq::empty()
        }
    }

    /// The moves of the piece on `from`, in the order in which they are
    /// generated.
    pub open spec fn piece_moves(self, from: u8, captures_only: bool) -> Seq<MoveData> {
        let piece = self.squares[from as int];
        if pieces::type_of(piece) == pieces::PAWN {
            self.pawn_moves(from, captures_only)
        } else {
            (if !captures_only && pieces::type_of(piece) == pieces::KING {
                self.castling_moves(from)
            } else {
                Seq::empty()
            }) + moves_to(from, piece, self.piece_targets(from, captures_only), false, 64)
        }
    }

    /// The moves of the pieces with the given code that stand on the squares
    /// below `n`, in the order of the squares.
    pub open spec fn kind_moves(self, piece: u8, captures_only: bool, n: nat) -> Seq<MoveData>
        decreases n,
    {
        if n == 0 {
            Seq::empty()
        } else {
            let rest = self.kind_moves(piece, captures_only, (n - 1) as nat);
            if self.squares[n - 1] == piece {
                rest + self.piece_moves((n - 1) as u8, captures_only)
            } else {
                rest
            }
        }
    }

    /// The moves of the first `kinds` kinds of pieces of the side to move:
    /// pawns first, then knights, bishops, rooks, queens and the king.
    pub open spec fn side_moves(self, captures_only: bool, kinds: nat) -> Seq<MoveData>
        decreases kinds,
    {
        if kinds == 0 {
            Seq::empty()
        } else {
            self.side_moves(captures_only, (kinds - 1) as nat) + self.kind_moves(
                pieces::piece_code(self.white_to_move, (kinds - 1) as u8) as u8,
                captures_only,
                64,
            )
        }
    }

    /// All the moves of the side to move.
    pub open spec fn moves(self, captures_only: bool) -> Seq<MoveData> {
        self.side_moves(captures_only, 6)
    }
}

/// What the two castling masks of each colour say of the squares.
proof fn lemma_castle_masks(occupied: u64)
    by (bit_vector)
    ensures
        (0x60u64 & occupied == 0) == (!has_bit(occupied, 5) && !has_bit(occupied, 6)),
        (0x6000_0000_0000_0000u64 & occupied == 0) == (!has_bit(occupied, 61) && !has_bit(
            occupied,
            62,
        )),
        (0x0eu64 & occupied == 0) == (!has_bit(occupied, 1) && !has_bit(occupied, 2) && !has_bit(
            occupied,
            3,
        )),
        (0x0e00_0000_0000_0000u64 & occupied == 0) == (!has_bit(occupied, 57) && !has_bit(
            occupied,
            58,
        ) && !has_bit(occupied, 59)),
{
}

/// Every move of a piece of the side to move fits the position.
pub proof fn lemma_piece_moves_fit(v: BoardView, from: u8, captures_only: bool)
    requires
        v.wf(),
        from < 64,
        v.own_at(from),
    ensures
        forall|k: int|
            0 <= k < v.piece_moves(from, captures_only).len() ==> v.fits(
                #[trigger] v.piece_moves(from, captures_only)[k],
            ),
{
    let piece = v.squares[from as int];
    let moves = v.piece_moves(from, captures_only);
    if pieces::type_of(piece) == pieces::PAWN {
        let pushes = if captures_only {
            Seq::empty()
        } else {
            v.pawn_pushes(from)
        };
        let captures = moves_to(from, piece, v.pawn_targets(from), v.promotes_from(from), 64);
        let en_passant = v.pawn_en_passant(from);
        lemma_moves_to_members(from, piece, v.pawn_targets(from), v.promotes_from(from), 64);
        assert forall|k: int| 0 <= k < moves.len() implies v.fits(#[trigger] moves[k]) by {
            if k < pushes.len() {
                assert(moves[k] == pushes[k]);
            } else if k < pushes.len() + captures.len() {
                assert(moves[k] == captures[k - pushes.len()]);
            } else {
                assert(moves[k] == en_passant[k - pushes.len() - captures.len()]);
            }
        }
    } else {
        let castling = if !captures_only && pieces::type_of(piece) == pieces::KING {
            v.castling_moves(from)
        } else {
            Seq::empty()
        };
        let plain = moves_to(from, piece, v.piece_targets(from, captures_only), false, 64);
        lemma_moves_to_members(from, piece, v.piece_targets(from, captures_only), false, 64);
        assert forall|k: int| 0 <= k < moves.len() implies v.fits(#[trigger] moves[k]) by {
            if k < castling.len() {
                assert(moves[k] == castling[k]);
                assert(v.squares[from as int] == pieces::piece_code(
                    v.white_to_move,
                    pieces::KING,
                ));
            } else {
                assert(moves[k] == plain[k - castling.len()]);
            }
        }
    }
}

/// Appends the moves of a piece to one square.
fn push_target(move_list: &mut MoveList, from: u8, to: u8, piece: u8, promote: bool)
    ensures
        final(move_list)@ == old(move_list)@ + unscored(target_moves(from, to, piece, promote)),
{
    if promote {
        move_list.push(MoveData { from, to, piece, flag: flag::PROMOTE_KNIGHT });
        move_list.push(MoveData { from, to, piece, flag: flag::PROMOTE_BISHOP });
        move_list.push(MoveData { from, to, piece, flag: flag::PROMOTE_ROOK });
        move_list.push(MoveData { from, to, piece, flag: flag::PROMOTE_QUEEN });
    } else {
        move_list.push(MoveData { from, to, piece, flag: flag::NONE });
    }
    assert(move_list@ =~= old(move_list)@ + unscored(target_moves(from, to, piece, promote)));
}

/// Appends the moves of a piece to the squares of a board, lowest square
/// first.
fn push_targets(move_list: &mut MoveList, from: u8, piece: u8, targets: u64, promote: bool)
    ensures
        final(move_list)@ == old(move_list)@ + unscored(
            moves_to(from, piece, |j: u8| has_bit(targets, j), promote, 64),
        ),
{
    let mut bitboard = targets;
    let ghost held = |j: u8| has_bit(targets, j);
    let ghost mut cursor: nat = 0;
    proof {
        lemma_unscored_add(Seq::empty(), Seq::empty());
        assert(move_list@ =~= old(move_list)@ + unscored(
            moves_to(from, piece, held, promote, 0),
        ));
    }
    while bitboard != 0
        invariant
            cursor <= 64,
            held == |j: u8| has_bit(targets, j),
            forall|j: u8|
                j < 64 ==> #[trigger] has_bit(bitboard, j) == (has_bit(targets, j) && j
                    >= cursor),
            move_list@ == old(move_list)@ + unscored(
                moves_to(from, piece, held, promote, cursor),
            ),
        decreases 64 - cursor,
    {
        let ghost remaining = bitboard;
        let to = pop_lsb(&mut bitboard);
        proof {
            assert(has_bit(remaining, to));
            assert forall|j: u8| cursor <= j < to implies !#[trigger] held(j) by {
                assert(!has_bit(remaining, j));
            }
            lemma_moves_to_skip(from, piece, held, promote, cursor, to as nat);
            assert(held(to));
            lemma_unscored_add(
                moves_to(from, piece, held, promote, to as nat),
                target_moves(from, to, piece, promote),
            );
        }
        push_target(move_list, from, to, piece, promote);
        proof {
            cursor = (to + 1) as nat;
            assert(moves_to(from, piece, held, promote, cursor) == moves_to(
                from,
                piece,
                held,
                promote,
                to as nat,
            ) + target_moves(from, to, piece, promote));
            assert(move_list@ =~= old(move_list)@ + unscored(
                moves_to(from, piece, held, promote, cursor),
            ));
        }
    }
    proof {
        assert forall|j: u8| cursor <= j < 64 implies !#[trigger] held(j) by {
            lemma_bit_zero(j);
            assert(!has_bit(bitboard, j));
        }
        lemma_moves_to_skip(from, piece, held, promote, cursor, 64);
    }
}

impl Board {
    /// Appends the moves of the piece on a square to a list. The piece must
    /// stand there and belong to the side to move.
    pub fn get_moves_for_piece(
        &self,
        piece: u8,
        piece_index: u8,
        captures_only: bool,
        move_list: &mut MoveList,
    )
        requires
            self.wf(),
            piece_index < 64,
            piece < 12,
            self@.squares[piece_index as int] == piece,
            pieces::white_code(piece) == self.white_to_move,
        ensures
            final(move_list)@ == old(move_list)@ + unscored(
                self@.piece_moves(piece_index, captures_only),
            ),
            forall|k: int|
                0 <= k < self@.piece_moves(piece_index, captures_only).len() ==> self@.fits(
                    #[trigger] self@.piece_moves(piece_index, captures_only)[k],
                ),
    {
        let piece_type = pieces::get_type(piece);
        let is_white = self.white_to_move;
        let own_color: usize = if is_white { pieces::WHITE } else { pieces::BLACK };
        let other_color: usize = if is_white { pieces::BLACK } else { pieces::WHITE };
        let ghost v = self@;
        proof {
            lemma_piece_moves_fit(v, piece_index, captures_only);
            lemma_occupancy(v.squares);
            assert forall|j: u8| j < 64 implies (#[trigger] has_bit(
                self.color_bitboards[other_color as int],
                j,
            ) == v.enemy_at(j)) && (#[trigger] has_bit(self.color_bitboards[own_color as int], j)
                == v.own_at(j)) by {
                assert(v.squares[j as int] == crate::board::piece_on(self.piece_bitboards, j));
            }
        }
        if piece_type == pieces::PAWN {
            let rank = piece_index / 8;
            let will_promote = rank == (if is_white { 1 } else { 6 });
            let ghost mut pushed: Seq<MoveData> = Seq::empty();
            proof {
                lemma_unscored_add(Seq::empty(), Seq::empty());
                assert(move_list@ =~= old(move_list)@ + unscored(pushed));
            }
            if !captures_only {
                let can_step = if is_white { piece_index >= 8 } else { piece_index < 56 };
                if can_step {
                    let single_push: u8 = if is_white { piece_index - 8 } else { piece_index + 8 };
                    if self.get(single_push) == pieces::NONE {
                        push_target(move_list, piece_index, single_push, piece, will_promote);
                        let ghost single = target_moves(
                            piece_index,
                            single_push,
                            piece,
                            will_promote,
                        );
                        proof {
                            pushed = single;
                        }
                        if rank == (if is_white { 6 } else { 1 }) {
                            let double_push: u8 = if is_white {
                                piece_index - 16
                            } else {
                                piece_index + 16
                            };
                            if self.get(double_push) == pieces::NONE {
                                let m = MoveData {
                                    from: piece_index,
                                    to: double_push,
                                    piece,
                                    flag: flag::DOUBLE_PAWN_PUSH,
                                };
                                move_list.push(m);
                                proof {
                                    pushed = single + seq![m];
                                    lemma_unscored_add(single, seq![m]);
                                    assert(unscored(seq![m]) =~= seq![(m, 0i16)]);
                                }
                            }
                        }
                        proof {
                            assert(pushed =~= v.pawn_pushes(piece_index));
                            assert(move_list@ =~= old(move_list)@ + unscored(pushed));
                        }
                    }
                }
                assert(pushed =~= v.pawn_pushes(piece_index));
            }
            let attack_set = pawn_attacks(piece_index, is_white);
            let bitboard = attack_set & self.color_bitboards[other_color];
            push_targets(move_list, piece_index, piece, bitboard, will_promote);
            let ghost captures = moves_to(
                piece_index,
                piece,
                v.pawn_targets(piece_index),
                will_promote,
                64,
            );
            proof {
                assert forall|j: u8| j < 64 implies #[trigger] has_bit(bitboard, j)
                    == (v.pawn_targets(piece_index))(j) by {
                    lemma_bit_and(attack_set, self.color_bitboards[other_color as int], j);
                }
                lemma_moves_to_same(
                    piece_index,
                    piece,
                    |j: u8| has_bit(bitboard, j),
                    v.pawn_targets(piece_index),
                    will_promote,
                    64,
                );
                lemma_unscored_add(pushed, captures);
                assert(move_list@ =~= old(move_list)@ + unscored(pushed + captures));
            }
            let en_passant_square = self.history.peek().en_passant_square;
            if en_passant_square != 0 && test_bit(attack_set, en_passant_square) {
                let m = MoveData {
                    from: piece_index,
                    to: en_passant_square,
                    piece,
                    flag: flag::EN_PASSANT,
                };
                move_list.push(m);
                proof {
                    assert(v.pawn_en_passant(piece_index) =~= seq![m]);
                    lemma_unscored_add(pushed + captures, seq![m]);
                    assert(unscored(seq![m]) =~= seq![(m, 0i16)]);
                }
            } else {
                proof {
                    assert(v.pawn_en_passant(piece_index) =~= Seq::<MoveData>::empty());
                    lemma_unscored_add(pushed + captures, Seq::empty());
                }
            }
            proof {
                assert(v.piece_moves(piece_index, captures_only) =~= pushed + captures
                    + v.pawn_en_passant(piece_index));
                assert(move_list@ =~= old(move_list)@ + unscored(
                    v.piece_moves(piece_index, captures_only),
                ));
            }
        } else {
            let occupied = self.occupied_bitboard();
            let reach = if piece_type == pieces::KNIGHT {
                knight_attacks(piece_index)
            } else if piece_type == pieces::BISHOP {
                get_bishop_moves(piece_index, occupied)
            } else if piece_type == pieces::ROOK {
                get_rook_moves(piece_index, occupied)
            } else if piece_type == pieces::QUEEN {
                let diagonal = get_bishop_moves(piece_index, occupied);
                let line = get_rook_moves(piece_index, occupied);
                proof {
                    assert forall|j: u8| j < 64 implies #[trigger] has_bit(diagonal | line, j) == (
                    bishop_reaches(piece_index, occupied, j) || rook_reaches(
                        piece_index,
                        occupied,
                        j,
                    )) by {
                        lemma_bit_or(diagonal, line, j);
                    }
                }
                diagonal | line
            } else {
                king_attacks(piece_index)
            };
            let mut bitboard = reach & !self.color_bitboards[own_color];
            let ghost mut castling: Seq<MoveData> = Seq::empty();
            proof {
                lemma_unscored_add(Seq::empty(), Seq::empty());
                assert(move_list@ =~= old(move_list)@ + unscored(castling));
                assert forall|j: u8| j < 64 implies #[trigger] has_bit(reach, j) == v.reaches(
                    piece_index,
                    j,
                ) by {}
            }
            if captures_only {
                bitboard = bitboard & self.color_bitboards[other_color];
            } else if piece_type == pieces::KING {
                let castling_rights = self.history.peek().castling_rights;
                proof {
                    lemma_castle_masks(occupied);
                }
                if castling_rights.kingside(is_white) && CASTLE_KINGSIDE_MASK[own_color] & occupied
                    == 0 && !self.in_check() && self.get_attackers_of(piece_index + 1) == 0 {
                    let m = MoveData {
                        from: piece_index,
                        to: piece_index + 2,
                        piece,
                        flag: flag::CASTLE_KINGSIDE,
                    };
                    move_list.push(m);
                    proof {
                        castling = seq![m];
                        assert(unscored(seq![m]) =~= seq![(m, 0i16)]);
                    }
                }
                let ghost kingside = castling;
                if castling_rights.queenside(is_white) && CASTLE_QUEENSIDE_MASK[own_color]
                    & occupied == 0 && !self.in_check() && self.get_attackers_of(piece_index - 1)
                    == 0 {
                    let m = MoveData {
                        from: piece_index,
                        to: piece_index - 2,
                        piece,
                        flag: flag::CASTLE_QUEENSIDE,
                    };
                    move_list.push(m);
                    proof {
                        castling = kingside + seq![m];
                        lemma_unscored_add(kingside, seq![m]);
                        assert(unscored(seq![m]) =~= seq![(m, 0i16)]);
                    }
                }
                proof {
                    assert(castling =~= v.castling_moves(piece_index));
                    assert(move_list@ =~= old(move_list)@ + unscored(castling));
                }
            }
            push_targets(move_list, piece_index, piece, bitboard, false);
            proof {
                let plain = moves_to(
                    piece_index,
                    piece,
                    v.piece_targets(piece_index, captures_only),
                    false,
                    64,
                );
                assert forall|j: u8| j < 64 implies #[trigger] has_bit(bitboard, j)
                    == (v.piece_targets(piece_index, captures_only))(j) by {
                    let own = self.color_bitboards[own_color as int];
                    let other = self.color_bitboards[other_color as int];
                    lemma_bit_not(own, j);
                    lemma_bit_and(reach, !own, j);
                    lemma_bit_and(reach & !own, other, j);
                }
                lemma_moves_to_same(
                    piece_index,
                    piece,
                    |j: u8| has_bit(bitboard, j),
                    v.piece_targets(piece_index, captures_only),
                    false,
                    64,
                );
                lemma_unscored_add(castling, plain);
                assert(v.piece_moves(piece_index, captures_only) =~= castling + plain);
                assert(move_list@ =~= old(move_list)@ + unscored(
                    v.piece_moves(piece_index, captures_only),
                ));
            }
        }
    }
}

/// Squares that do not hold the piece add no moves.
pub proof fn lemma_kind_moves_skip(
    v: BoardView,
    piece: u8,
    captures_only: bool,
    low: nat,
    high: nat,
)
    requires
        low <= high <= 64,
        forall|j: int| low <= j < high ==> v.squares[j] != piece,
    ensures
        v.kind_moves(piece, captures_only, high) == v.kind_moves(piece, captures_only, low),
    decreases high - low,
{
    if low < high {
        lemma_kind_moves_skip(v, piece, captures_only, low, (high - 1) as nat);
    }
}

/// What holds of every move of every piece of the side to move holds of
/// every move of the pieces of one kind.
pub proof fn lemma_kind_moves_all(
    v: BoardView,
    piece: u8,
    captures_only: bool,
    holds: spec_fn(MoveData) -> bool,
    n: nat,
)
    requires
        n <= 64,
        piece < 12,
        pieces::white_code(piece) == v.white_to_move,
        forall|from: u8, j: int|
            from < 64 && v.own_at(from) && 0 <= j < v.piece_moves(from, captures_only).len()
                ==> holds(#[trigger] v.piece_moves(from, captures_only)[j]),
    ensures
        forall|k: int|
            0 <= k < v.kind_moves(piece, captures_only, n).len() ==> holds(
                #[trigger] v.kind_moves(piece, captures_only, n)[k],
            ),
    decreases n,
{
    if n > 0 {
        lemma_kind_moves_all(v, piece, captures_only, holds, (n - 1) as nat);
        let rest = v.kind_moves(piece, captures_only, (n - 1) as nat);
        let all = v.kind_moves(piece, captures_only, n);
        if v.squares[n - 1] == piece {
            let added = v.piece_moves((n - 1) as u8, captures_only);
            assert(v.own_at((n - 1) as u8));
            assert forall|k: int| 0 <= k < all.len() implies holds(#[trigger] all[k]) by {
                if k < rest.len() {
                    assert(all[k] == rest[k]);
                } else {
                    assert(all[k] == added[k - rest.len()]);
                }
            }
        }
    }
}

/// What holds of every move of every piece of the side to move holds of
/// every generated move.
pub proof fn lemma_side_moves_all(
    v: BoardView,
    captures_only: bool,
    holds: spec_fn(MoveData) -> bool,
    kinds: nat,
)
    requires
        kinds <= 6,
        forall|from: u8, j: int|
            from < 64 && v.own_at(from) && 0 <= j < v.piece_moves(from, captures_only).len()
                ==> holds(#[trigger] v.piece_moves(from, captures_only)[j]),
    ensures
        forall|k: int|
            0 <= k < v.side_moves(captures_only, kinds).len() ==> holds(
                #[trigger] v.side_moves(captures_only, kinds)[k],
            ),
    decreases kinds,
{
    if kinds > 0 {
        lemma_side_moves_all(v, captures_only, holds, (kinds - 1) as nat);
        let piece = pieces::piece_code(v.white_to_move, (kinds - 1) as u8) as u8;
        lemma_kind_moves_all(v, piece, captures_only, holds, 64);
        let rest = v.side_moves(captures_only, (kinds - 1) as nat);
        let added = v.kind_moves(piece, captures_only, 64);
        let all = v.side_moves(captures_only, kinds);
        assert forall|k: int| 0 <= k < all.len() implies holds(#[trigger] all[k]) by {
            if k < rest.len() {
                assert(all[k] == rest[k]);
            } else {
                assert(all[k] == added[k - rest.len()]);
            }
        }
    }
}

/// What holds of every move of every piece of the side to move holds of
/// every generated move.
pub proof fn lemma_moves_all(v: BoardView, captures_only: bool, holds: spec_fn(MoveData) -> bool)
    requires
        forall|from: u8, j: int|
            from < 64 && v.own_at(from) && 0 <= j < v.piece_moves(from, captures_only).len()
                ==> holds(#[trigger] v.piece_moves(from, captures_only)[j]),
    ensures
        forall|k: int|
            0 <= k < v.moves(captures_only).len() ==> holds(#[trigger] v.moves(captures_only)[k]),
{
    lemma_side_moves_all(v, captures_only, holds, 6);
}

impl BoardView {
    /// Whether a move takes a piece: it goes to a square that holds a piece
    /// of the other side, or it is an en passant capture.
    pub open spec fn takes(self, m: MoveData) -> bool {
        &&& m.flag != flag::CASTLE_KINGSIDE
        &&& m.flag != flag::CASTLE_QUEENSIDE
        &&& m.flag != flag::DOUBLE_PAWN_PUSH
        &&& m.flag == flag::EN_PASSANT || self.enemy_at(m.to)
    }
}

/// When only captures are asked for, every move of a piece takes a piece.
pub proof fn lemma_piece_moves_take(v: BoardView, from: u8)
    requires
        v.wf(),
        from < 64,
        v.own_at(from),
    ensures
        forall|k: int|
            0 <= k < v.piece_moves(from, true).len() ==> v.takes(
                #[trigger] v.piece_moves(from, true)[k],
            ),
{
    let piece = v.squares[from as int];
    let moves = v.piece_moves(from, true);
    if pieces::type_of(piece) == pieces::PAWN {
        let captures = moves_to(from, piece, v.pawn_targets(from), v.promotes_from(from), 64);
        let en_passant = v.pawn_en_passant(from);
        lemma_moves_to_members(from, piece, v.pawn_targets(from), v.promotes_from(from), 64);
        assert forall|k: int| 0 <= k < moves.len() implies v.takes(#[trigger] moves[k]) by {
            if k < captures.len() {
                assert(moves[k] == captures[k]);
            } else {
                assert(moves[k] == en_passant[k - captures.len()]);
            }
        }
    } else {
        let plain = moves_to(from, piece, v.piece_targets(from, true), false, 64);
        lemma_moves_to_members(from, piece, v.piece_targets(from, true), false, 64);
        assert forall|k: int| 0 <= k < moves.len() implies v.takes(#[trigger] moves[k]) by {
            assert(moves[k] == plain[k]);
        }
    }
}

/// Every generated move fits the position: `Board::make_move` may be called
/// with it.
pub proof fn lemma_moves_fit(v: BoardView, captures_only: bool, kinds: nat)
    requires
        v.wf(),
        kinds <= 6,
    ensures
        forall|k: int|
            0 <= k < v.side_moves(captures_only, kinds).len() ==> v.fits(
                #[trigger] v.side_moves(captures_only, kinds)[k],
            ),
{
    let fits = |m: MoveData| v.fits(m);
    assert forall|from: u8, j: int|
        from < 64 && v.own_at(from) && 0 <= j < v.piece_moves(
            from,
            captures_only,
        ).len() implies fits(#[trigger] v.piece_moves(from, captures_only)[j]) by {
        lemma_piece_moves_fit(v, from, captures_only);
    }
    lemma_side_moves_all(v, captures_only, fits, kinds);
    assert forall|k: int| 0 <= k < v.side_moves(captures_only, kinds).len() implies v.fits(
        #[trigger] v.side_moves(captures_only, kinds)[k],
    ) by {
        assert(fits(v.side_moves(captures_only, kinds)[k]));
    }
}

/// When only captures are asked for, every generated move takes a piece.
pub proof fn lemma_moves_take(v: BoardView, kinds: nat)
    requires
        v.wf(),
        kinds <= 6,
    ensures
        forall|k: int|
            0 <= k < v.side_moves(true, kinds).len() ==> v.takes(
                #[trigger] v.side_moves(true, kinds)[k],
            ),
{
    let takes = |m: MoveData| v.takes(m);
    assert forall|from: u8, j: int|
        from < 64 && v.own_at(from) && 0 <= j < v.piece_moves(from, true).len() implies takes(
        #[trigger] v.piece_moves(from, true)[j],
    ) by {
        lemma_piece_moves_take(v, from);
    }
    lemma_side_moves_all(v, true, takes, kinds);
    assert forall|k: int| 0 <= k < v.side_moves(true, kinds).len() implies v.takes(
        #[trigger] v.side_moves(true, kinds)[k],
    ) by {
        assert(takes(v.side_moves(true, kinds)[k]));
    }
}

/// A move that takes a piece leaves one piece fewer on the board.
pub proof fn lemma_capture_count(v: BoardView, m: MoveData)
    requires
        v.wf(),
        v.fits(m),
        v.takes(m),
    ensures
        crate::draw::piece_count(v.made(m).squares, 64) + 1 == crate::draw::piece_count(
            v.squares,
            64,
        ),
{
    let s0 = v.squares;
    let s1 = s0.update(m.from as int, pieces::NONE);
    let s2 = s1.update(m.to as int, crate::zobrist::placed_piece(m));
    crate::draw::lemma_piece_count_update(s0, m.from as int, pieces::NONE, 64);
    crate::draw::lemma_piece_count_update(s1, m.to as int, crate::zobrist::placed_piece(m), 64);
    if m.flag == flag::EN_PASSANT {
        let victim = crate::zobrist::en_passant_victim(
            v.state().en_passant_square,
            v.white_to_move,
        );
        crate::draw::lemma_piece_count_update(s2, victim, pieces::NONE, 64);
    }
}

impl Board {
    /// The moves of the side to move, or only its captures.
    pub fn get_moves(&self, captures_only: bool) -> (move_list: MoveList)
        requires
            self.wf(),
        ensures
            move_list@ == unscored(self@.moves(captures_only)),
            forall|k: int|
                0 <= k < move_list@.len() ==> self@.fits((#[trigger] move_list@[k]).0),
            captures_only ==> forall|k: int|
                0 <= k < move_list@.len() ==> self@.takes((#[trigger] move_list@[k]).0),
    {
        let mut move_list = MoveList::new();
        let ghost v = self@;
        let mut kind: u8 = 0;
        proof {
            lemma_unscored_add(Seq::empty(), Seq::empty());
            assert(move_list@ =~= unscored(v.side_moves(captures_only, 0)));
        }
        while kind < 6
            invariant
                kind <= 6,
                self.wf(),
                v == self@,
                move_list@ == unscored(v.side_moves(captures_only, kind as nat)),
            decreases 6 - kind,
        {
            let piece = pieces::build_piece(self.white_to_move, kind);
            let mut bitboard = self.piece_bitboards[piece as usize];
            let ghost all = bitboard;
            let ghost mut cursor: nat = 0;
            let ghost done = v.side_moves(captures_only, kind as nat);
            proof {
                lemma_unscored_add(done, Seq::empty());
                assert(move_list@ =~= unscored(done + v.kind_moves(piece, captures_only, 0)));
                assert forall|j: u8| j < 64 implies #[trigger] has_bit(all, j) == (
                v.squares[j as int] == piece) by {
                    assert(v.squares[j as int] == crate::board::piece_on(self.piece_bitboards, j));
                }
            }
            while bitboard != 0
                invariant
                    cursor <= 64,
                    self.wf(),
                    v == self@,
                    piece < 12,
                    pieces::white_code(piece) == self.white_to_move,
                    forall|j: u8|
                        j < 64 ==> #[trigger] has_bit(all, j) == (v.squares[j as int] == piece),
                    forall|j: u8|
                        j < 64 ==> #[trigger] has_bit(bitboard, j) == (has_bit(all, j) && j
                            >= cursor),
                    move_list@ == unscored(done + v.kind_moves(piece, captures_only, cursor)),
                decreases 64 - cursor,
            {
                let ghost remaining = bitboard;
                let piece_index = pop_lsb(&mut bitboard);
                proof {
                    assert(has_bit(remaining, piece_index));
                    assert(has_bit(all, piece_index));
                    assert forall|j: int| cursor <= j < piece_index implies v.squares[j]
                        != piece by {
                        assert(!has_bit(remaining, j as u8));
                        assert(!has_bit(all, j as u8));
                    }
                    lemma_kind_moves_skip(v, piece, captures_only, cursor, piece_index as nat);
                    lemma_unscored_add(
                        done + v.kind_moves(piece, captures_only, piece_index as nat),
                        v.piece_moves(piece_index, captures_only),
                    );
                }
                self.get_moves_for_piece(piece, piece_index, captures_only, &mut move_list);
                proof {
                    cursor = (piece_index + 1) as nat;
                    assert(v.kind_moves(piece, captures_only, cursor) == v.kind_moves(
                        piece,
                        captures_only,
                        piece_index as nat,
                    ) + v.piece_moves(piece_index, captures_only));
                    assert(done + v.kind_moves(piece, captures_only, cursor) =~= done
                        + v.kind_moves(piece, captures_only, piece_index as nat)
                        + v.piece_moves(piece_index, captures_only));
                }
            }
            proof {
                assert forall|j: int| cursor <= j < 64 implies v.squares[j] != piece by {
                    lemma_bit_zero(j as u8);
                    assert(!has_bit(bitboard, j as u8));
                    assert(!has_bit(all, j as u8));
                }
                lemma_kind_moves_skip(v, piece, captures_only, cursor, 64);
            }
            kind += 1;
        }
        proof {
            lemma_moves_fit(v, captures_only, 6);
            if captures_only {
                lemma_moves_take(v, 6);
            }
        }
        move_list
    }
}

/// Whether a generated move is the one that a move read from coordinates
/// asks for: it goes to the same square, and carries the flag asked for, if
/// one is.
pub open spec fn answers(m: MoveData, wanted: MoveData) -> bool {
    m.to == wanted.to && (wanted.flag == flag::NONE || wanted.flag == m.flag)
}

/// The index of the first of the moves from `start` on that answers to
/// `wanted`; the length of the list if none does.
pub open spec fn first_answer(moves: Seq<MoveData>, wanted: MoveData, start: int) -> int
    decreases moves.len() - start,
{
    if start >= moves.len() {
        moves.len() as int
    } else if answers(moves[start], wanted) {
        start
    } else {
        first_answer(moves, wanted, start + 1)
    }
}

impl BoardView {
    /// The move that a coordinate text selects: the first move of the piece
    /// on its origin that answers to it. None if the text is too short, if no
    /// piece of the side to move stands on the origin, or if no move of that
    /// piece answers.
    pub open spec fn chosen_move(self, text: Seq<char>) -> Option<MoveData> {
        if text.len() < 4 {
            None
        } else {
            let wanted = move_of_coordinates(text);
            let moves = self.piece_moves(wanted.from, false);
            let index = first_answer(moves, wanted, 0);
            if !self.own_at(wanted.from) || index >= moves.len() {
                None
            } else {
                Some(moves[index])
            }
        }
    }
}

impl Board {
    /// The move that a coordinate text such as `e2e4` or `e7e8q` selects: the
    /// first move of the piece on its origin that goes to its destination
    /// and, if the text names a promotion, promotes to that piece.
    pub fn select_move(&self, coordinates: &str) -> (selected: Option<MoveData>)
        requires
            self.wf(),
        ensures
            selected == self@.chosen_move(coordinates@),
            selected is Some ==> self@.fits(selected->Some_0),
    {
        if coordinates.unicode_len() < 4 {
            return None;
        }
        let data = MoveData::from_coordinates(coordinates);
        let piece = self.get(data.from);
        if piece == pieces::NONE || pieces::is_white(piece) != self.white_to_move {
            return None;
        }
        let mut move_list = MoveList::new();
        self.get_moves_for_piece(piece, data.from, ALL_MOVES, &mut move_list);
        let ghost moves = self@.piece_moves(data.from, false);
        assert(move_list@ =~= unscored(moves));
        let n = move_list.len();
        let mut i: usize = 0;
        while i < n
            invariant
                i <= n,
                n == moves.len(),
                self.wf(),
                coordinates@.len() >= 4,
                data == move_of_coordinates(coordinates@),
                self@.own_at(data.from),
                moves == self@.piece_moves(data.from, false),
                forall|k: int| 0 <= k < moves.len() ==> self@.fits(#[trigger] moves[k]),
                move_list@ == unscored(moves),
                first_answer(moves, data, 0) == first_answer(moves, data, i as int),
            decreases n - i,
        {
            let m = move_list.moves[i].0;
            assert(m == moves[i as int]);
            if m.to == data.to && (data.flag == flag::NONE || data.flag == m.flag) {
                return Some(m);
            }
            i += 1;
        }
        None
    }

    /// Makes the move that a coordinate text selects, if it selects one and
    /// the move is legal. Returns whether a move was made; if none was, the
    /// position is as before.
    pub fn try_move(&mut self, coordinates: &str) -> (made: bool)
        requires
            old(self).wf(),
        ensures
            final(self).wf(),
            match old(self)@.chosen_move(coordinates@) {
                None => !made && final(self)@ == old(self)@,
                Some(m) => {
                    &&& old(self)@.fits(m)
                    &&& made == !king_attacked(old(self)@.made(m).squares, old(self).white_to_move)
                    &&& made ==> final(self)@ == old(self)@.made(m)
                    &&& !made ==> final(self)@ == old(self)@
                },
            },
    {
        match self.select_move(coordinates) {
            Some(m) => self.make_move(&m),
            None => false,
        }
    }
}

} // verus!
