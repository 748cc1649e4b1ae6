//! Zobrist hashing: a 64-bit key for a position, made by combining one fixed
//! random number for each thing that is true of it, so that a move changes
//! the key by the few numbers of what it changes.

use vstd::prelude::*;
use rand::{Rng, SeedableRng};
use rand_pcg::Pcg64;
use crate::board::Board;
use crate::position::BoardState;
use crate::move_data::MoveData;
use crate::move_data::flag;
use crate::pieces;
use crate::value_holder::ValueHolder;

verus! {

/// The seed of the generator that all the numbers come from.
pub const SEED: u64 = 19274892;

/// Where the numbers for the castling rights start in the stream of the
/// generator; those for the pieces on the squares come first.
pub const CASTLING_BASE: u64 = 768;

/// Where the numbers for the en passant columns start.
pub const EN_PASSANT_BASE: u64 = 784;

/// Where the number for the side to move stands.
pub const SIDE_INDEX: u64 = 792;

/// The number that a PCG-64 generator seeded with `seed` gives after `index`
/// earlier ones.
pub uninterp spec fn pcg64_output(seed: u64, index: u64) -> u64;

/// Draws one number of the stream of `rand_pcg::Pcg64`: seeds the generator
/// with `Pcg64::seed_from_u64`, skips `index` numbers with `advance` and takes
/// the next with `Rng::gen`. The generator is deterministic, so the number
/// depends on the seed and the index alone; no more is claimed of it.
#[verifier::external_body]
fn pcg64_draw(seed: u64, index: u64) -> (value: u64)
    ensures
        value == pcg64_output(seed, index),
{
    let mut rng = Pcg64::seed_from_u64(seed);
    rng.advance(index as u128);
    rng.gen::<u64>()
}

/// The number for a piece on a square; 0 for no piece.
pub open spec fn piece_key(square: int, piece: u8) -> u64 {
    if piece < pieces::COUNT {
        pcg64_output(SEED, (square * 12 + piece) as u64)
    } else {
        0
    }
}

/// The number for a set of castling rights.
pub open spec fn castling_key(rights: u8) -> u64 {
    pcg64_output(SEED, (CASTLING_BASE + rights) as u64)
}

/// The number for an en passant square, which depends on its column only; 0
/// where there is no such square.
pub open spec fn en_passant_key(square: u8) -> u64 {
    if square != 0 {
        pcg64_output(SEED, (EN_PASSANT_BASE + square % 8) as u64)
    } else {
        0
    }
}

/// The number for the side to move: that of `SIDE_INDEX` when Black is to
/// move, 0 when White is.
pub open spec fn side_key(white_to_move: bool) -> u64 {
    if white_to_move {
        0
    } else {
        pcg64_output(SEED, SIDE_INDEX)
    }
}

/// The numbers of the pieces on the first `n` squares, combined.
pub open spec fn squares_key(squares: Seq<u8>, n: nat) -> u64
    decreases n,
{
    if n == 0 {
        0
    } else {
        squares_key(squares, (n - 1) as nat) ^ piece_key(n - 1, squares[n - 1])
    }
}

/// The key of a position: the numbers of its pieces, of its castling rights,
/// of its en passant square and of the side to move, combined.
pub open spec fn position_key(
    squares: Seq<u8>,
    rights: u8,
    en_passant_square: u8,
    white_to_move: bool,
) -> u64 {
    squares_key(squares, 64) ^ castling_key(rights) ^ en_passant_key(en_passant_square) ^ side_key(
        white_to_move,
    )
}

/// The square of the pawn that an en passant capture takes: one step behind
/// the en passant square, seen from the capturing side.
pub open spec fn en_passant_victim(en_passant_square: u8, white_moves: bool) -> int {
    if white_moves {
        en_passant_square + 8
    } else {
        en_passant_square - 8
    }
}

/// The piece that a move puts on its destination: the piece promoted to, or
/// the moving piece itself.
pub open spec fn placed_piece(m: MoveData) -> u8 {
    if flag::promotes(m.flag) {
        pieces::piece_code(pieces::white_code(m.piece), m.flag) as u8
    } else {
        m.piece
    }
}

/// The numbers of the rook's two squares in a castling move; 0 for any other
/// move.
pub open spec fn rook_keys(m: MoveData) -> u64 {
    let rook = pieces::piece_code(pieces::white_code(m.piece), pieces::ROOK) as u8;
    if m.flag == flag::CASTLE_KINGSIDE {
        piece_key(m.to + 1, rook) ^ piece_key(m.to - 1, rook)
    } else if m.flag == flag::CASTLE_QUEENSIDE {
        piece_key(m.to - 2, rook) ^ piece_key(m.to + 1, rook)
    } else {
        0
    }
}

/// The number of the piece that a move takes, on the square where it stood;
/// 0 where the move takes nothing.
pub open spec fn capture_key(m: MoveData, previous: BoardState, current: BoardState) -> u64 {
    if m.flag == flag::EN_PASSANT {
        piece_key(
            en_passant_victim(previous.en_passant_square, pieces::white_code(m.piece)),
            current.capture,
        )
    } else {
        piece_key(m.to as int, current.capture)
    }
}

/// The key after a move, from the key before it: the numbers of what the
/// move changes are combined into it.
pub open spec fn next_key(
    key: u64,
    m: MoveData,
    previous: BoardState,
    current: BoardState,
) -> u64 {
    key ^ piece_key(m.from as int, m.piece) ^ piece_key(m.to as int, placed_piece(m)) ^ rook_keys(
        m,
    ) ^ capture_key(m, previous, current) ^ castling_key(previous.castling_rights.0)
        ^ castling_key(current.castling_rights.0) ^ en_passant_key(previous.en_passant_square)
        ^ en_passant_key(current.en_passant_square) ^ pcg64_output(SEED, SIDE_INDEX)
}

/// The hasher of a board: the stack of keys, and the tables of the numbers.
#[derive(Clone)]
pub struct Zobrist {
    pub key: ValueHolder<u64>,
    pub pieces: [[u64; 12]; 64],
    pub castling_rights: [u64; 16],
    pub en_passant: [u64; 8],
    pub side_to_move: u64,
}

impl Zobrist {
    /// The tables hold the numbers of the generator.
    pub open spec fn tables_ok(&self) -> bool {
        &&& forall|square: int, piece: int|
            0 <= square < 64 && 0 <= piece < 12 ==> #[trigger] self.pieces[square][piece]
                == pcg64_output(SEED, (square * 12 + piece) as u64)
        &&& forall|rights: int|
            0 <= rights < 16 ==> #[trigger] self.castling_rights[rights] == pcg64_output(
                SEED,
                (CASTLING_BASE + rights) as u64,
            )
        &&& forall|file: int|
            0 <= file < 8 ==> #[trigger] self.en_passant[file] == pcg64_output(
                SEED,
                (EN_PASSANT_BASE + file) as u64,
            )
        &&& self.side_to_move == pcg64_output(SEED, SIDE_INDEX)
    }

    /// The stack of keys is in order and the tables hold the numbers.
    pub open spec fn wf(&self) -> bool {
        self.key.wf() && self.tables_ok()
    }

    /// A hasher with empty tables and the key 0.
    pub fn empty() -> (zobrist: Self)
        ensures
            zobrist.key.wf(),
            zobrist.key@ == seq![0u64],
            forall|square: int, piece: int|
                0 <= square < 64 && 0 <= piece < 12 ==> #[trigger] zobrist.pieces[square][piece]
                    == 0,
            forall|rights: int|
                0 <= rights < 16 ==> #[trigger] zobrist.castling_rights[rights] == 0,
            forall|file: int| 0 <= file < 8 ==> #[trigger] zobrist.en_passant[file] == 0,
            zobrist.side_to_move == 0,
    {
        Self {
            key: ValueHolder::new(0),
            pieces: [[0; 12]; 64],
            castling_rights: [0; 16],
            en_passant: [0; 8],
            side_to_move: 0,
        }
    }

    /// The tables of the generator and the key of a position.
    pub fn calculate(board: &Board) -> (zobrist: Self)
        requires
            board.history.wf(),
            board.history@.last().castling_rights.wf(),
        ensures
            zobrist.wf(),
            zobrist.key@ == seq![
                position_key(
                    board@.squares,
                    board@.states.last().castling_rights.0,
                    board@.states.last().en_passant_square,
                    board@.white_to_move,
                ),
            ],
    {
        let mut zobrist = Zobrist::empty();
        let mut key: u64 = 0;
        let board_state = board.history.peek();
        let mut square: usize = 0;
        while square < 64
            invariant
                square <= 64,
                key == squares_key(board@.squares, square as nat),
                forall|s: int, p: int|
                    0 <= s < square && 0 <= p < 12 ==> #[trigger] zobrist.pieces[s][p]
                        == pcg64_output(SEED, (s * 12 + p) as u64),
            decreases 64 - square,
        {
            let mut piece: usize = 0;
            while piece < 12
                invariant
                    square < 64,
                    piece <= 12,
                    forall|s: int, p: int|
                        0 <= s < square && 0 <= p < 12 ==> #[trigger] zobrist.pieces[s][p]
                            == pcg64_output(SEED, (s * 12 + p) as u64),
                    forall|p: int|
                        0 <= p < piece ==> #[trigger] zobrist.pieces[square as int][p]
                            == pcg64_output(SEED, (square * 12 + p) as u64),
                decreases 12 - piece,
            {
                let number = pcg64_draw(SEED, (square * 12 + piece) as u64);
                zobrist.pieces[square][piece] = number;
                piece += 1;
            }
            let piece = board.get(square as u8);
            let part: u64 = if piece != pieces::NONE {
                zobrist.pieces[square][piece as usize]
            } else {
                0
            };
            key = key ^ part;
            square += 1;
        }
        let mut rights: usize = 0;
        while rights < 16
            invariant
                rights <= 16,
                forall|s: int, p: int|
                    0 <= s < 64 && 0 <= p < 12 ==> #[trigger] zobrist.pieces[s][p]
                        == pcg64_output(SEED, (s * 12 + p) as u64),
                forall|r: int|
                    0 <= r < rights ==> #[trigger] zobrist.castling_rights[r] == pcg64_output(
                        SEED,
                        (CASTLING_BASE + r) as u64,
                    ),
            decreases 16 - rights,
        {
            let number = pcg64_draw(SEED, CASTLING_BASE + rights as u64);
            zobrist.castling_rights[rights] = number;
            rights += 1;
        }
        let mut file: usize = 0;
        while file < 8
            invariant
                file <= 8,
                forall|s: int, p: int|
                    0 <= s < 64 && 0 <= p < 12 ==> #[trigger] zobrist.pieces[s][p]
                        == pcg64_output(SEED, (s * 12 + p) as u64),
                forall|r: int|
                    0 <= r < 16 ==> #[trigger] zobrist.castling_rights[r] == pcg64_output(
                        SEED,
                        (CASTLING_BASE + r) as u64,
                    ),
                forall|f: int|
                    0 <= f < file ==> #[trigger] zobrist.en_passant[f] == pcg64_output(
                        SEED,
                        (EN_PASSANT_BASE + f) as u64,
                    ),
            decreases 8 - file,
        {
            let number = pcg64_draw(SEED, EN_PASSANT_BASE + file as u64);
            zobrist.en_passant[file] = number;
            file += 1;
        }
        zobrist.side_to_move = pcg64_draw(SEED, SIDE_INDEX);
        let castling_part = zobrist.castling_rights[board_state.castling_rights.0 as usize];
        let en_passant_part: u64 = if board_state.en_passant_square != 0 {
            zobrist.en_passant[(board_state.en_passant_square % 8) as usize]
        } else {
            0
        };
        let side_part: u64 = if board.white_to_move {
            0
        } else {
            zobrist.side_to_move
        };
        key = key ^ castling_part ^ en_passant_part ^ side_part;
        zobrist.key = ValueHolder::new(key);
        zobrist
    }

    /// Pushes the key of the position after a move: the key before it with
    /// the numbers of what the move changes combined into it.
    pub fn make_move(
        &mut self,
        m: &MoveData,
        previous_state: &BoardState,
        current_state: &BoardState,
    )
        requires
            old(self).wf(),
            m.from < 64,
            m.to < 64,
            m.piece < 12,
            m.flag == flag::CASTLE_KINGSIDE ==> 1 <= m.to < 63,
            m.flag == flag::CASTLE_QUEENSIDE ==> 2 <= m.to < 63,
            m.flag == flag::EN_PASSANT ==> 0 <= en_passant_victim(
                previous_state.en_passant_square,
                pieces::white_code(m.piece),
            ) < 64,
            previous_state.castling_rights.wf(),
            current_state.castling_rights.wf(),
        ensures
            final(self).wf(),
            final(self).key@ == old(self).key@.push(
                next_key(old(self).key@.last(), *m, *previous_state, *current_state),
            ),
    {
        let key = self.key.peek();
        let white = pieces::is_white(m.piece);
        let from_part = self.pieces[m.from as usize][m.piece as usize];
        let to_part = if flag::is_promotion(m.flag) {
            self.pieces[m.to as usize][pieces::build_piece(white, m.flag) as usize]
        } else {
            self.pieces[m.to as usize][m.piece as usize]
        };
        let rook = pieces::build_piece(white, pieces::ROOK) as usize;
        let rook_part: u64 = if m.flag == flag::CASTLE_KINGSIDE {
            self.pieces[m.to as usize + 1][rook] ^ self.pieces[m.to as usize - 1][rook]
        } else if m.flag == flag::CASTLE_QUEENSIDE {
            self.pieces[m.to as usize - 2][rook] ^ self.pieces[m.to as usize + 1][rook]
        } else {
            0
        };
        let capture_part: u64 = if current_state.capture >= pieces::COUNT {
            0
        } else if m.flag == flag::EN_PASSANT {
            let victim: u8 = if white {
                previous_state.en_passant_square + 8
            } else {
                previous_state.en_passant_square - 8
            };
            self.pieces[victim as usize][current_state.capture as usize]
        } else {
            self.pieces[m.to as usize][current_state.capture as usize]
        };
        let previous_rights = self.castling_rights[previous_state.castling_rights.0 as usize];
        let current_rights = self.castling_rights[current_state.castling_rights.0 as usize];
        let previous_en_passant: u64 = if previous_state.en_passant_square != 0 {
            self.en_passant[(previous_state.en_passant_square % 8) as usize]
        } else {
            0
        };
        let current_en_passant: u64 = if current_state.en_passant_square != 0 {
            self.en_passant[(current_state.en_passant_square % 8) as usize]
        } else {
            0
        };
        let new_key = key ^ from_part ^ to_part ^ rook_part ^ capture_part ^ previous_rights
            ^ current_rights ^ previous_en_passant ^ current_en_passant ^ self.side_to_move;
        self.key.push(new_key);
    }
}

} // verus!
