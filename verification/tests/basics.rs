use maxwell::attacks::{get_bishop_moves, get_rook_moves, king_attacks, knight_attacks, pawn_attacks};
use maxwell::castling_rights::CastlingRights;
use maxwell::constants::{is_checkmate, ply_from_mate, square_to_index, CHECKMATE};
use maxwell::move_data::flag;
use maxwell::move_data::MoveData;
use maxwell::move_list::MoveList;
use maxwell::piece;
use maxwell::pieces;
use maxwell::utils::{count_ones, get_lsb, get_sign, pop_lsb};
use maxwell::value_holder::ValueHolder;

fn squares(names: &[&str]) -> u64 {
    let mut bb = 0u64;
    for name in names {
        bb |= 1u64 << square_to_index(name);
    }
    bb
}

#[test]
fn pop_lsb_takes_the_lowest_square() {
    let mut bb: u64 = 0b1011_0000;
    assert_eq!(pop_lsb(&mut bb), 4);
    assert_eq!(bb, 0b1010_0000);
    assert_eq!(pop_lsb(&mut bb), 5);
    assert_eq!(pop_lsb(&mut bb), 7);
    assert_eq!(bb, 0);
    let mut top: u64 = 1 << 63;
    assert_eq!(pop_lsb(&mut top), 63);
    assert_eq!(top, 0);
}

#[test]
fn get_lsb_of_boards() {
    assert_eq!(get_lsb(0), 64);
    assert_eq!(get_lsb(1), 0);
    assert_eq!(get_lsb(0x8000_0000_0000_0000), 63);
    assert_eq!(get_lsb(0b1100), 2);
}

#[test]
fn count_ones_counts_squares() {
    assert_eq!(count_ones(0), 0);
    assert_eq!(count_ones(u64::MAX), 64);
    assert_eq!(count_ones(0b1011), 3);
    assert_eq!(count_ones(0x8000_0000_0000_0001), 2);
}

#[test]
fn get_sign_of_scores() {
    assert_eq!(get_sign(5), 1);
    assert_eq!(get_sign(-5), -1);
    assert_eq!(get_sign(0), -1);
    assert_eq!(get_sign(i16::MIN), -1);
}

#[test]
fn piece_codes() {
    assert_eq!(pieces::build_piece(true, pieces::QUEEN), pieces::WHITE_QUEEN);
    assert_eq!(pieces::build_piece(false, pieces::QUEEN), pieces::BLACK_QUEEN);
    for piece in 0..pieces::COUNT {
        assert_eq!(pieces::build_piece(pieces::is_white(piece), pieces::get_type(piece)), piece);
        assert_eq!(pieces::from_char(pieces::to_char(piece)), piece);
        assert_eq!(pieces::to_str(piece), pieces::to_char(piece).to_string());
        assert_eq!(pieces::get_color_index(piece), if piece >= 6 { pieces::WHITE } else { pieces::BLACK });
        assert_eq!(pieces::get_color_offset(piece), if piece >= 6 { 6 } else { 0 });
    }
    assert_eq!(pieces::to_char(pieces::NONE), ' ');
    assert_eq!(pieces::from_char('x'), pieces::NONE);
    assert_eq!(pieces::to_char(pieces::WHITE_KNIGHT), 'N');
    assert_eq!(pieces::from_char('k'), pieces::BLACK_KING);
    assert!(pieces::can_pawn_capture(pieces::WHITE_PAWN, pieces::BLACK_ROOK));
    assert!(!pieces::can_pawn_capture(pieces::WHITE_PAWN, pieces::WHITE_ROOK));
    assert!(!pieces::can_pawn_capture(pieces::WHITE_PAWN, pieces::NONE));
}

#[test]
fn promotion_flags_are_piece_types() {
    assert_eq!(flag::PROMOTE_KNIGHT, pieces::KNIGHT);
    assert_eq!(flag::PROMOTE_BISHOP, pieces::BISHOP);
    assert_eq!(flag::PROMOTE_ROOK, pieces::ROOK);
    assert_eq!(flag::PROMOTE_QUEEN, pieces::QUEEN);
    assert!(flag::is_promotion(flag::PROMOTE_ROOK));
    assert!(!flag::is_promotion(flag::NONE));
    assert!(!flag::is_promotion(flag::EN_PASSANT));
    assert!(!flag::is_promotion(flag::CASTLE_QUEENSIDE));
}

#[test]
fn packed_pieces_and_moves() {
    assert!(piece::is_white(piece::WHITE | piece::ROOK));
    assert!(!piece::is_white(piece::BLACK | piece::ROOK));
    assert_eq!(piece::get_piece_type(piece::WHITE | piece::QUEEN), piece::QUEEN);
    let m = piece::build_move(piece::EN_PASSANT_FLAG, 3, 33, 42);
    assert_eq!(m, (6 << 16) | (3 << 12) | (33 << 6) | 42);
    assert_eq!(piece::get_move_flag(m), piece::EN_PASSANT_FLAG);
    assert_eq!(piece::get_move_capture(m), 3);
    assert_eq!(piece::get_move_from(m), 33);
    assert_eq!(piece::get_move_to(m), 42);
}

#[test]
fn square_names() {
    assert_eq!(square_to_index("a8"), 0);
    assert_eq!(square_to_index("h8"), 7);
    assert_eq!(square_to_index("e4"), 36);
    assert_eq!(square_to_index("a1"), 56);
    assert_eq!(square_to_index("h1"), 63);
    assert_eq!(square_to_index("-"), 0);
    assert_eq!(square_to_index("i1"), 0);
    assert_eq!(square_to_index("a9"), 0);
    assert_eq!(square_to_index("e44"), 0);
    assert_eq!(square_to_index(""), 0);
}

#[test]
fn mate_scores() {
    assert!(is_checkmate(CHECKMATE));
    assert!(is_checkmate(-CHECKMATE + 7));
    assert!(!is_checkmate(0));
    assert!(!is_checkmate(CHECKMATE - 1000));
    assert!(is_checkmate(CHECKMATE - 999));
    assert_eq!(ply_from_mate(CHECKMATE - 3), 3);
    assert_eq!(ply_from_mate(-CHECKMATE + 4), 4);
}

#[test]
fn castling_rights_text() {
    assert_eq!(CastlingRights::from_str("KQkq").0, 0b1111);
    assert_eq!(CastlingRights::from_str("-").0, 0);
    assert_eq!(CastlingRights::from_str("Kq").0, 0b1001);
    assert_eq!(CastlingRights::from_str("qK").0, 0b1001);
    assert_eq!(CastlingRights(0b1111).to_str(), "KQkq");
    assert_eq!(CastlingRights(0).to_str(), "-");
    assert_eq!(CastlingRights(0b0110).to_str(), "Qk");
    for bits in 0..16u8 {
        assert_eq!(CastlingRights::from_str(&CastlingRights(bits).to_str()).0, bits);
    }
}

#[test]
fn castling_rights_removal() {
    let mut rights = CastlingRights(0b1111);
    assert!(rights.kingside(true) && rights.queenside(true));
    assert!(rights.kingside(false) && rights.queenside(false));
    rights.remove_both(true);
    assert_eq!(rights.0, 0b0011);
    assert!(!rights.kingside(true) && !rights.queenside(true));
    rights.remove_one(7);
    assert_eq!(rights.0, 0b0001);
    rights.remove_one(30);
    assert_eq!(rights.0, 0b0001);
    rights.remove_one(0);
    assert_eq!(rights.0, 0);
    let mut rights = CastlingRights(0b1111);
    rights.remove_one(63);
    assert_eq!(rights.0, 0b0111);
    rights.remove_one(56);
    assert_eq!(rights.0, 0b0011);
    rights.remove_both(false);
    assert_eq!(rights.0, 0);
}

#[test]
fn value_holder_keeps_its_storage() {
    let mut holder = ValueHolder::new(1u64);
    assert!(holder.is_empty());
    assert_eq!(holder.peek(), 1);
    holder.push(2);
    holder.push(3);
    assert_eq!(holder.peek(), 3);
    assert_eq!(holder.len(), 3);
    holder.pop();
    assert_eq!(holder.peek(), 2);
    assert_eq!(holder.history.len(), 3);
    holder.push(7);
    assert_eq!(holder.peek(), 7);
    assert_eq!(holder.history.len(), 3);
    *holder.peek_mut() = 9;
    assert_eq!(holder.peek(), 9);
    holder.pop();
    holder.pop();
    assert!(holder.is_empty());
    assert_eq!(holder.peek(), 1);
}

#[test]
fn move_coordinates_round_trip() {
    for text in ["e2e4", "e7e8q", "a7a8n", "h2h1r", "b7b8b", "a1h8", "g1f3"] {
        let m = MoveData::from_coordinates(text);
        assert_eq!(m.to_coordinates(), text);
    }
    let m = MoveData::from_coordinates("e7e8q");
    assert_eq!(m.from, 12);
    assert_eq!(m.to, 4);
    assert_eq!(m.flag, flag::PROMOTE_QUEEN);
    assert_eq!(m.piece, pieces::NONE);
    let plain = MoveData::from_coordinates("e2e4");
    assert_eq!((plain.from, plain.to, plain.flag), (52, 36, flag::NONE));
}

#[test]
fn move_binary_round_trip() {
    let m = MoveData { from: 52, to: 36, piece: pieces::WHITE_PAWN, flag: flag::DOUBLE_PAWN_PUSH };
    assert_eq!(m.to_binary(), (52 << 6) | 36);
    let back = MoveData::from_binary(m.to_binary());
    assert_eq!((back.from, back.to), (52, 36));
    assert_eq!(back.piece, pieces::NONE);
    assert_eq!(back.flag, flag::NONE);
    assert_eq!(MoveData::default(), MoveData::null());
    assert_eq!(MoveData::null().piece, pieces::NONE);
}

#[test]
fn move_list_next_selects_the_best() {
    let mut list = MoveList::new();
    for to in 0..5u8 {
        list.push(MoveData { from: 0, to, piece: 3, flag: 0 });
    }
    assert_eq!(list.len(), 5);
    let scores = [5i16, 9, -3, 9, 7];
    for (i, score) in scores.iter().enumerate() {
        list.moves[i].1 = *score;
    }
    assert_eq!(list.next(0).to, 1);
    assert_eq!(list.next(1).to, 3);
    assert_eq!(list.next(2).to, 4);
    assert_eq!(list.next(3).to, 0);
    assert_eq!(list.next(4).to, 2);
    let order: Vec<i16> = list.moves.iter().map(|entry| entry.1).collect();
    assert_eq!(order, vec![9, 9, 7, 5, -3]);
    assert_eq!(list.pop().map(|entry| entry.0.to), Some(2));
    assert_eq!(list.len(), 4);
}

#[test]
fn knight_king_and_pawn_attacks() {
    assert_eq!(knight_attacks(square_to_index("a1")), squares(&["b3", "c2"]));
    assert_eq!(
        knight_attacks(square_to_index("e4")),
        squares(&["d6", "f6", "c5", "g5", "c3", "g3", "d2", "f2"])
    );
    assert_eq!(king_attacks(square_to_index("h8")), squares(&["g8", "g7", "h7"]));
    assert_eq!(
        king_attacks(square_to_index("e4")),
        squares(&["d5", "e5", "f5", "d4", "f4", "d3", "e3", "f3"])
    );
    assert_eq!(pawn_attacks(square_to_index("e4"), true), squares(&["d5", "f5"]));
    assert_eq!(pawn_attacks(square_to_index("e4"), false), squares(&["d3", "f3"]));
    assert_eq!(pawn_attacks(square_to_index("a2"), true), squares(&["b3"]));
    assert_eq!(pawn_attacks(square_to_index("h7"), false), squares(&["g6"]));
    assert_eq!(pawn_attacks(square_to_index("c8"), true), 0);
    assert_eq!(pawn_attacks(square_to_index("c1"), false), 0);
}

#[test]
fn sliding_attacks_stop_at_the_first_blocker() {
    let rook = square_to_index("d4");
    assert_eq!(
        get_rook_moves(rook, 0),
        squares(&["d8", "d7", "d6", "d5", "d3", "d2", "d1", "a4", "b4", "c4", "e4", "f4", "g4", "h4"])
    );
    let blockers = squares(&["d6", "f4", "d4", "b4", "d1"]);
    assert_eq!(
        get_rook_moves(rook, blockers),
        squares(&["d6", "d5", "d3", "d2", "d1", "b4", "c4", "e4", "f4"])
    );
    let bishop = square_to_index("c1");
    assert_eq!(get_bishop_moves(bishop, 0), squares(&["b2", "a3", "d2", "e3", "f4", "g5", "h6"]));
    assert_eq!(
        get_bishop_moves(bishop, squares(&["b2", "e3"])),
        squares(&["b2", "d2", "e3"])
    );
    assert_eq!(get_rook_moves(square_to_index("a8"), u64::MAX), squares(&["b8", "a7"]));
    assert_eq!(get_bishop_moves(square_to_index("h1"), u64::MAX), squares(&["g2"]));
}
