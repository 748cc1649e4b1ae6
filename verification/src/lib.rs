//! A bitboard chess engine core: position representation, move generation,
//! Zobrist hashing, evaluation, transposition table and alpha-beta search.
//!
//! The position is held in boards of 64 bits, one bit for each square, and
//! is spoken of in contracts as a `position::BoardView`: the piece on each
//! square, the side to move, and the stacks of states and keys. What a move
//! does to a position is `BoardView::made`; what the generator gives is
//! `BoardView::moves`; what the search computes is `search_value::node_value`.

pub mod utils;
pub mod pieces;
pub mod piece;
pub mod value_holder;
pub mod castling_rights;
pub mod constants;
pub mod move_data;
pub mod move_list;
pub mod attacks;
pub mod zobrist;
pub mod position;
pub mod board;
pub mod movegen;
pub mod piece_square_tables;
pub mod evaluation;
pub mod draw;
pub mod fen;
pub mod fen_round_trip;
pub mod transposition_table;
pub mod quiescence;
pub mod search_value;
pub mod bot;
pub mod perft;
pub mod legality;
pub mod texel;
