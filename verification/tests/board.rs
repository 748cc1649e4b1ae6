use maxwell::board::Board;
use maxwell::constants::square_to_index;
use maxwell::evaluation::EVAL_LIMIT;
use maxwell::move_data::flag;
use maxwell::move_data::MoveData;
use maxwell::movegen::{ALL_MOVES, CAPTURES_ONLY};
use maxwell::pieces;
use maxwell::zobrist::{Zobrist, SEED};
use rand::{Rng, SeedableRng};
use rand_pcg::Pcg64;

const STARTING_POS: &str = "rnbqkbnr/pppppppp/8/8/8/8/PPPPPPPP/RNBQKBNR w KQkq - 0 1";
const KIWIPETE: &str = "r3k2r/p1ppqpb1/bn2pnp1/3PN3/1p2P3/2N2Q1p/PPPBBPPP/R3K2R w KQkq - 0 1";

struct Snapshot {
    piece_bitboards: [u64; 12],
    color_bitboards: [u64; 2],
    white_to_move: bool,
    castling: u8,
    en_passant: u8,
    clock: u8,
    key: u64,
    states: usize,
    keys: usize,
}

fn snapshot(board: &Board) -> Snapshot {
    let state = board.history.peek();
    Snapshot {
        piece_bitboards: board.piece_bitboards,
        color_bitboards: board.color_bitboards,
        white_to_move: board.white_to_move,
        castling: state.castling_rights.0,
        en_passant: state.en_passant_square,
        clock: state.halfmove_clock,
        key: board.zobrist.key.peek(),
        states: board.history.len(),
        keys: board.zobrist.key.len(),
    }
}

fn assert_same(a: &Snapshot, b: &Snapshot) {
    assert_eq!(a.piece_bitboards, b.piece_bitboards);
    assert_eq!(a.color_bitboards, b.color_bitboards);
    assert_eq!(a.white_to_move, b.white_to_move);
    assert_eq!(a.castling, b.castling);
    assert_eq!(a.en_passant, b.en_passant);
    assert_eq!(a.clock, b.clock);
    assert_eq!(a.key, b.key);
    assert_eq!(a.states, b.states);
    assert_eq!(a.keys, b.keys);
}

fn key_from_scratch(board: &Board) -> u64 {
    Zobrist::calculate(board).key.peek()
}

fn check_invariants(board: &Board) {
    assert!(board.is_valid());
    assert_eq!(board.color_bitboards[0] & board.color_bitboards[1], 0);
    let mut seen = 0u64;
    for piece in 0..12usize {
        assert_eq!(seen & board.piece_bitboards[piece], 0);
        seen |= board.piece_bitboards[piece];
        assert_eq!(board.piece_bitboards[piece] & !board.color_bitboards[piece / 6], 0);
    }
    assert_eq!(seen, board.occupied_bitboard());
    assert_eq!(board.zobrist.key.peek(), key_from_scratch(board));
    assert_eq!(board.history.len(), board.zobrist.key.len());
}

#[test]
fn start_position_is_read() {
    let board = Board::new(STARTING_POS);
    assert!(board.white_to_move);
    assert_eq!(board.get(0), pieces::BLACK_ROOK);
    assert_eq!(board.get(4), pieces::BLACK_KING);
    assert_eq!(board.get(12), pieces::BLACK_PAWN);
    assert_eq!(board.get(30), pieces::NONE);
    assert_eq!(board.get(52), pieces::WHITE_PAWN);
    assert_eq!(board.get(59), pieces::WHITE_QUEEN);
    assert_eq!(board.get(63), pieces::WHITE_ROOK);
    assert_eq!(board.occupied_bitboard(), 0xffff_0000_0000_ffff);
    assert_eq!(board.color_bitboards[pieces::WHITE], 0xffff_0000_0000_0000);
    assert_eq!(board.color_bitboards[pieces::BLACK], 0x0000_0000_0000_ffff);
    let state = board.history.peek();
    assert_eq!(state.castling_rights.0, 0b1111);
    assert_eq!(state.en_passant_square, 0);
    assert_eq!(state.halfmove_clock, 0);
    assert_eq!(state.capture, pieces::NONE);
    check_invariants(&board);
}

#[test]
fn missing_fields_get_their_defaults() {
    let board = Board::new("8/8/4k3/8/8/3K4/8/8");
    assert!(board.white_to_move);
    let state = board.history.peek();
    assert_eq!(state.castling_rights.0, 0);
    assert_eq!(state.en_passant_square, 0);
    assert_eq!(state.halfmove_clock, 0);
    assert_eq!(board.generate_fen(), "8/8/4k3/8/8/3K4/8/8 w - - 0 1");
    let black = Board::new("8/8/4k3/8/8/3K4/8/8 b");
    assert!(!black.white_to_move);
    let empty = Board::new("");
    assert_eq!(empty.occupied_bitboard(), 0);
    assert!(empty.white_to_move);
}

#[test]
fn halfmove_clock_is_read() {
    let board = Board::new("8/pk4p1/2prp3/3p1p2/3P2p1/R2BP3/2P2KPP/8 w - - 8 35");
    assert_eq!(board.history.peek().halfmove_clock, 8);
    assert_eq!(Board::new("8/8/4k3/8/8/3K4/8/8 w - - 255 1").history.peek().halfmove_clock, 255);
    assert_eq!(Board::new("8/8/4k3/8/8/3K4/8/8 w - - 256 1").history.peek().halfmove_clock, 0);
    assert_eq!(Board::new("8/8/4k3/8/8/3K4/8/8 w - - x 1").history.peek().halfmove_clock, 0);
}

#[test]
fn fen_round_trip() {
    for fen in [
        STARTING_POS,
        KIWIPETE,
        "r3k2r/Pppp1ppp/1b3nbN/nP6/BBP1P3/q4N2/Pp1P2PP/R2Q1RK1 w kq - 0 1",
        "8/8/8/3k4/R5p1/P5r1/4K3/8 w - - 0 1",
        "rnbqkbnr/pppp1ppp/8/4p3/4P3/8/PPPP1PPP/RNBQKBNR w KQkq e6 0 1",
        "rnbqkbnr/pppppppp/8/8/4P3/8/PPPP1PPP/RNBQKBNR b KQkq e3 0 1",
        "4k3/8/8/8/8/8/4R3/4K2R w K - 12 1",
        "8/8/8/8/8/8/8/8 b - - 100 1",
    ] {
        assert_eq!(Board::new(fen).generate_fen(), fen);
    }
}

#[test]
fn fen_counts_the_moves_made() {
    let mut board = Board::new(STARTING_POS);
    assert!(board.try_move("e2e4"));
    assert_eq!(
        board.generate_fen(),
        "rnbqkbnr/pppppppp/8/8/4P3/8/PPPP1PPP/RNBQKBNR b KQkq e3 0 1"
    );
    assert!(board.try_move("g8f6"));
    assert_eq!(
        board.generate_fen(),
        "rnbqkb1r/pppppppp/5n2/8/4P3/8/PPPP1PPP/RNBQKBNR w KQkq - 1 2"
    );
}

#[test]
fn inconsistent_positions_are_found() {
    assert!(!Board::new("4k3/8/8/8/8/8/8/4K3 w K - 0 1").is_valid());
    assert!(!Board::new("r3k2r/8/8/8/8/8/8/R3K2R w KQkq e6 0 1").is_valid());
    assert!(!Board::new("r3k2r/8/8/4K3/8/8/8/R6R w KQ - 0 1").is_valid());
    assert!(Board::new("r3k2r/8/8/8/8/8/8/R3K2R w KQkq - 0 1").is_valid());
    assert!(Board::new("rnbqkbnr/pppp1ppp/8/4p3/8/8/PPPPPPPP/RNBQKBNR w KQkq e6 0 1").is_valid());
    assert!(!Board::new("rnbqkbnr/pppp1ppp/8/4p3/8/8/PPPPPPPP/RNBQKBNR b KQkq e6 0 1").is_valid());
}

#[test]
fn make_and_unmake_restore_the_board() {
    for fen in [
        STARTING_POS,
        KIWIPETE,
        "r3k2r/Pppp1ppp/1b3nbN/nP6/BBP1P3/q4N2/Pp1P2PP/R2Q1RK1 w kq - 0 1",
        "rnbqkbnr/ppp1pppp/8/8/3pP3/8/PPPP1PPP/RNBQKBNR b KQkq e3 0 1",
        "8/2p5/3p4/KP5r/1R3p1k/8/4P1P1/8 w - - 0 1",
    ] {
        let mut board = Board::new(fen);
        let before = snapshot(&board);
        let list = board.get_moves(ALL_MOVES);
        assert!(list.len() > 0);
        for (m, _) in list.moves.iter() {
            if board.make_move(m) {
                check_invariants(&board);
                assert_eq!(board.history.len(), before.states + 1);
                assert_ne!(board.white_to_move, before.white_to_move);
                board.undo_move(m);
            }
            assert_same(&snapshot(&board), &before);
        }
    }
}

#[test]
fn make_move_rejects_moves_that_leave_the_king_attacked() {
    let mut board = Board::new("4k3/8/8/8/8/4r3/4B3/4K3 w - - 0 1");
    let before = snapshot(&board);
    let pinned = MoveData {
        from: square_to_index("e2"),
        to: square_to_index("d3"),
        piece: pieces::WHITE_BISHOP,
        flag: flag::NONE,
    };
    assert!(!board.make_move(&pinned));
    assert_same(&snapshot(&board), &before);
    let along = MoveData {
        from: square_to_index("e1"),
        to: square_to_index("d1"),
        piece: pieces::WHITE_KING,
        flag: flag::NONE,
    };
    assert!(board.make_move(&along));
    assert!(!board.white_to_move);
    let list = Board::new("4k3/8/8/8/8/4r3/4B3/4K3 w - - 0 1").get_moves(ALL_MOVES);
    let mut legal = 0;
    let mut count = Board::new("4k3/8/8/8/8/4r3/4B3/4K3 w - - 0 1");
    for (m, _) in list.moves.iter() {
        if count.make_move(m) {
            assert!(m.piece == pieces::WHITE_KING);
            legal += 1;
            count.undo_move(m);
        }
    }
    assert_eq!(legal, 4);
}

#[test]
fn zobrist_tables_come_from_the_seeded_generator() {
    let board = Board::new(STARTING_POS);
    let zobrist = Zobrist::calculate(&board);
    let mut rng = Pcg64::seed_from_u64(SEED);
    for square in 0..64 {
        for piece in 0..12 {
            assert_eq!(zobrist.pieces[square][piece], rng.gen::<u64>());
        }
    }
    for rights in 0..16 {
        assert_eq!(zobrist.castling_rights[rights], rng.gen::<u64>());
    }
    for file in 0..8 {
        assert_eq!(zobrist.en_passant[file], rng.gen::<u64>());
    }
    assert_eq!(zobrist.side_to_move, rng.gen::<u64>());
    assert_ne!(zobrist.pieces[0][0], SEED);
    assert_ne!(zobrist.pieces[0][0], zobrist.pieces[0][1]);
}

#[test]
fn zobrist_key_is_the_combination_of_its_parts() {
    let board = Board::new("4k3/8/8/8/8/8/4P3/4K3 b - - 0 1");
    let z = &board.zobrist;
    let expected = z.pieces[4][pieces::BLACK_KING as usize]
        ^ z.pieces[52][pieces::WHITE_PAWN as usize]
        ^ z.pieces[60][pieces::WHITE_KING as usize]
        ^ z.castling_rights[0]
        ^ z.side_to_move;
    assert_eq!(z.key.peek(), expected);
    let white = Board::new("4k3/8/8/8/8/8/4P3/4K3 w - - 0 1");
    assert_eq!(white.zobrist.key.peek(), expected ^ z.side_to_move);
    let en_passant = Board::new("4k3/8/8/8/4Pp2/8/8/4K3 b - e3 0 1");
    let without = Board::new("4k3/8/8/8/4Pp2/8/8/4K3 b - - 0 1");
    assert_eq!(
        en_passant.zobrist.key.peek(),
        without.zobrist.key.peek() ^ en_passant.zobrist.en_passant[4]
    );
}

#[test]
fn zobrist_key_of_transposed_lines_is_the_same() {
    let mut first = Board::new(STARTING_POS);
    for m in ["g1f3", "g8f6", "b1c3", "b8c6"] {
        assert!(first.try_move(m));
    }
    let mut second = Board::new(STARTING_POS);
    for m in ["b1c3", "b8c6", "g1f3", "g8f6"] {
        assert!(second.try_move(m));
    }
    assert_eq!(first.zobrist.key.peek(), second.zobrist.key.peek());
    assert_ne!(first.zobrist.key.peek(), Board::new(STARTING_POS).zobrist.key.peek());
}

#[test]
fn random_games_keep_the_key_and_come_back() {
    let mut rng = Pcg64::seed_from_u64(7);
    for _ in 0..20 {
        let mut board = Board::new(STARTING_POS);
        let before = snapshot(&board);
        let mut played: Vec<MoveData> = Vec::new();
        while played.len() < 100 {
            let list = board.get_moves(ALL_MOVES);
            let mut legal: Vec<MoveData> = Vec::new();
            for (m, _) in list.moves.iter() {
                if board.make_move(m) {
                    board.undo_move(m);
                    legal.push(*m);
                }
            }
            if legal.is_empty() {
                break;
            }
            let m = legal[rng.gen_range(0..legal.len())];
            assert!(board.make_move(&m));
            check_invariants(&board);
            played.push(m);
        }
        assert!(played.len() >= 50 || board.get_moves(ALL_MOVES).len() == 0 || played.len() > 0);
        while let Some(m) = played.pop() {
            board.undo_move(&m);
        }
        assert_same(&snapshot(&board), &before);
    }
}

#[test]
fn castling_moves_the_rook_and_takes_the_rights() {
    let mut board = Board::new("r3k2r/8/8/8/8/8/8/R3K2R w KQkq - 0 1");
    let before = snapshot(&board);
    assert!(board.try_move("e1g1"));
    assert_eq!(board.get(62), pieces::WHITE_KING);
    assert_eq!(board.get(61), pieces::WHITE_ROOK);
    assert_eq!(board.get(63), pieces::NONE);
    assert_eq!(board.get(60), pieces::NONE);
    assert_eq!(board.history.peek().castling_rights.0, 0b0011);
    check_invariants(&board);
    assert!(board.try_move("e8c8"));
    assert_eq!(board.get(2), pieces::BLACK_KING);
    assert_eq!(board.get(3), pieces::BLACK_ROOK);
    assert_eq!(board.get(0), pieces::NONE);
    assert_eq!(board.history.peek().castling_rights.0, 0);
    check_invariants(&board);
    let m2 = MoveData { from: 4, to: 2, piece: pieces::BLACK_KING, flag: flag::CASTLE_QUEENSIDE };
    let m1 = MoveData { from: 60, to: 62, piece: pieces::WHITE_KING, flag: flag::CASTLE_KINGSIDE };
    board.undo_move(&m2);
    board.undo_move(&m1);
    assert_same(&snapshot(&board), &before);
}

#[test]
fn castling_needs_safe_and_empty_squares() {
    let has_castling = |fen: &str, wanted: u8| {
        let board = Board::new(fen);
        assert!(board.is_valid());
        board.get_moves(ALL_MOVES).moves.iter().any(|(m, _)| m.flag == wanted)
    };
    assert!(has_castling("r3k2r/8/8/8/8/8/8/R3K2R w KQkq - 0 1", flag::CASTLE_KINGSIDE));
    assert!(has_castling("r3k2r/8/8/8/8/8/8/R3K2R w KQkq - 0 1", flag::CASTLE_QUEENSIDE));
    assert!(has_castling("r3k2r/8/8/8/8/8/8/R3K2R b KQkq - 0 1", flag::CASTLE_KINGSIDE));
    assert!(!has_castling("r3k2r/8/8/8/8/8/8/R3K2R w Qkq - 0 1", flag::CASTLE_KINGSIDE));
    assert!(!has_castling("r3k2r/8/8/8/8/8/8/R3KB1R w KQkq - 0 1", flag::CASTLE_KINGSIDE));
    assert!(!has_castling("r3k2r/8/8/8/8/8/8/RN2K2R w KQkq - 0 1", flag::CASTLE_QUEENSIDE));
    assert!(!has_castling("r3k2r/8/8/8/8/5r2/8/R3K2R w KQkq - 0 1", flag::CASTLE_KINGSIDE));
    assert!(has_castling("r3k2r/8/8/8/8/5r2/8/R3K2R w KQkq - 0 1", flag::CASTLE_QUEENSIDE));
    assert!(!has_castling("r3k2r/8/8/8/8/4r3/8/R3K2R w KQkq - 0 1", flag::CASTLE_QUEENSIDE));
    assert!(has_castling("r3k2r/8/8/8/8/1r6/8/R3K2R w KQkq - 0 1", flag::CASTLE_QUEENSIDE));
    assert!(!has_castling("r3k2r/8/8/8/8/8/8/R3K2R w KQkq - 0 1", flag::EN_PASSANT));
    let board = Board::new("r3k2r/8/8/8/8/8/8/R3K2R w KQkq - 0 1");
    assert!(!board.get_moves(CAPTURES_ONLY).moves.iter().any(|(m, _)| m.flag != flag::NONE));
}

#[test]
fn en_passant_takes_the_pawn_behind_the_square() {
    let mut board = Board::new(STARTING_POS);
    for m in ["e2e4", "a7a6", "e4e5", "d7d5"] {
        assert!(board.try_move(m));
    }
    assert_eq!(board.history.peek().en_passant_square, square_to_index("d6"));
    let before = snapshot(&board);
    assert!(board.try_move("e5d6"));
    assert_eq!(board.get(square_to_index("d6")), pieces::WHITE_PAWN);
    assert_eq!(board.get(square_to_index("d5")), pieces::NONE);
    assert_eq!(board.get(square_to_index("e5")), pieces::NONE);
    assert_eq!(board.history.peek().capture, pieces::BLACK_PAWN);
    assert_eq!(board.history.peek().halfmove_clock, 0);
    assert_eq!(board.history.peek().en_passant_square, 0);
    check_invariants(&board);
    let m = MoveData {
        from: square_to_index("e5"),
        to: square_to_index("d6"),
        piece: pieces::WHITE_PAWN,
        flag: flag::EN_PASSANT,
    };
    board.undo_move(&m);
    assert_same(&snapshot(&board), &before);
}

#[test]
fn promotions_come_in_four_kinds() {
    let board = Board::new("3n4/4P3/8/8/8/8/k7/4K3 w - - 0 1");
    let list = board.get_moves(ALL_MOVES);
    let pawn_moves: Vec<(u8, u8)> = list
        .moves
        .iter()
        .filter(|(m, _)| m.piece == pieces::WHITE_PAWN)
        .map(|(m, _)| (m.to, m.flag))
        .collect();
    assert_eq!(
        pawn_moves,
        vec![(4, 1), (4, 2), (4, 3), (4, 4), (3, 1), (3, 2), (3, 3), (3, 4)]
    );
    let mut board = board;
    assert!(board.try_move("e7d8n"));
    assert_eq!(board.get(3), pieces::WHITE_KNIGHT);
    assert_eq!(board.get(12), pieces::NONE);
    assert_eq!(board.history.peek().capture, pieces::BLACK_KNIGHT);
    check_invariants(&board);
}

#[test]
fn try_move_refuses_what_is_no_move() {
    let mut board = Board::new(STARTING_POS);
    let before = snapshot(&board);
    assert!(!board.try_move("e2e5"));
    assert!(!board.try_move("e7e5"));
    assert!(!board.try_move("e3e4"));
    assert!(!board.try_move("e2"));
    assert!(!board.try_move(""));
    assert!(!board.try_move("e2e4q"));
    assert!(!board.try_move("zzzz"));
    assert_same(&snapshot(&board), &before);
    assert!(board.try_move("e2e4"));
    assert_eq!(board.history.peek().en_passant_square, square_to_index("e3"));
    assert_eq!(board.select_move("e7e5").map(|m| m.flag), Some(flag::DOUBLE_PAWN_PUSH));
    assert_eq!(board.select_move("e7e6").map(|m| m.piece), Some(pieces::BLACK_PAWN));
    assert!(board.select_move("e2e4").is_none());
}

#[test]
fn check_is_found_backwards() {
    let board = Board::new("4k3/8/8/8/8/8/4r3/4K3 w - - 0 1");
    assert!(board.in_check());
    assert_eq!(board.get_attackers_of(60), 1u64 << 52);
    assert_eq!(board.get_attackers_of(59), 0);
    let knight = Board::new("4k3/8/8/8/8/3n4/8/4K3 w - - 0 1");
    assert!(knight.in_check());
    assert_eq!(knight.get_attackers_of(60), 1u64 << square_to_index("d3"));
    let pawn = Board::new("4k3/8/8/8/8/8/3p4/4K3 w - - 0 1");
    assert!(pawn.in_check());
    let no_pawn = Board::new("4k3/8/8/8/8/8/4p3/4K3 w - - 0 1");
    assert!(!no_pawn.in_check());
    let blocked = Board::new("4k3/4r3/8/8/8/8/4P3/4K3 w - - 0 1");
    assert!(!blocked.in_check());
    let both = Board::new("4k3/8/8/8/1b6/8/8/r3K3 w - - 0 1");
    assert_eq!(both.get_attackers_of(60), (1u64 << 56) | (1u64 << square_to_index("b4")));
    assert!(Board::new("8/8/8/8/8/8/8/8 w - - 0 1").in_check());
    assert!(Board::new("4k3/8/8/8/8/8/8/8 w - - 0 1").in_check());
    assert!(!Board::new("4k3/8/8/8/8/8/8/8 b - - 0 1").in_check());
    assert!(!Board::new(STARTING_POS).in_check());
}

#[test]
fn evaluation_is_the_worth_of_the_pieces() {
    assert_eq!(Board::new(STARTING_POS).simple_eval(), 0);
    let white = Board::new("4k3/8/8/8/8/8/4P3/4K3 w - - 0 1");
    assert_eq!(white.simple_eval(), 80);
    assert_eq!(white.perspective(), 1);
    let black = Board::new("4k3/8/8/8/8/8/4P3/4K3 b - - 0 1");
    assert_eq!(black.simple_eval(), -80);
    assert_eq!(black.perspective(), -1);
    let mirrored = Board::new("4k3/4p3/8/8/8/8/8/4K3 w - - 0 1");
    assert_eq!(mirrored.simple_eval(), -80);
    let queen = Board::new("4k3/8/8/8/3Q4/8/8/4K3 w - - 0 1");
    assert_eq!(queen.simple_eval(), 905);
    let full = Board::new("QQQQQQQQ/QQQQQQQQ/QQQQQQQQ/QQQQQQQQ/QQQQQQQQ/QQQQQQQQ/QQQQQQQQ/QQQQQQQQ w - - 0 1");
    assert_eq!(full.simple_eval(), EVAL_LIMIT);
}

#[test]
fn insufficient_material_is_a_draw() {
    for fen in [
        "8/8/4k3/8/8/3K4/8/8 w - - 0 1",
        "8/8/4k3/8/8/3KB3/8/8 w - - 0 1",
        "8/8/4kn2/8/8/3K4/8/8 b - - 0 1",
    ] {
        let board = Board::new(fen);
        assert!(board.insufficient_checkmating_material());
        assert!(board.is_draw());
        assert!(board.is_draw());
    }
    for fen in [
        "8/8/4k3/8/8/3KR3/8/8 w - - 0 1",
        "8/8/4k3/8/8/3KP3/8/8 w - - 0 1",
        "8/8/4kq2/8/8/3K4/8/8 w - - 0 1",
        "8/8/4kb2/8/8/3KB3/8/8 w - - 0 1",
        STARTING_POS,
    ] {
        let board = Board::new(fen);
        assert!(!board.insufficient_checkmating_material());
        assert!(!board.is_draw());
    }
}

#[test]
fn fifty_moves_without_progress_are_a_draw() {
    let mut board = Board::new("4k3/7r/8/8/8/8/R7/4K3 w - - 99 60");
    assert!(!board.is_draw());
    assert!(board.try_move("a2a3"));
    assert_eq!(board.history.peek().halfmove_clock, 100);
    assert!(board.is_draw());
    assert!(board.try_move("h7h6"));
    assert!(board.is_draw());
    let mut capture = Board::new("4k3/7r/8/8/8/8/R6P/4K3 b - - 99 60");
    assert!(capture.try_move("h7h2"));
    assert_eq!(capture.history.peek().halfmove_clock, 0);
    assert!(!capture.is_draw());
}

#[test]
fn repeated_positions_are_a_draw() {
    let mut board = Board::new(STARTING_POS);
    let moves = ["g1f3", "g8f6", "f3g1", "f6g8", "g1f3", "g8f6", "f3g1", "f6g8"];
    let mut draws = Vec::new();
    for m in moves {
        assert!(board.try_move(m));
        draws.push(board.is_draw());
        assert_eq!(board.is_repetition(), board.is_draw());
    }
    assert_eq!(draws, vec![false, false, false, true, true, true, true, true]);
    assert!(board.is_draw());
}

#[test]
fn repetition_looks_no_further_back_than_the_clock() {
    let mut board = Board::new(STARTING_POS);
    for m in ["g1f3", "g8f6", "f3g1", "f6g8"] {
        assert!(board.try_move(m));
    }
    assert!(board.is_repetition());
    assert!(board.try_move("e2e3"));
    assert!(!board.is_repetition());
    for m in ["g8f6", "g1f3", "f6g8"] {
        assert!(board.try_move(m));
        assert!(!board.is_repetition());
    }
    assert!(board.try_move("f3g1"));
    assert!(board.is_repetition());
}

#[test]
fn toggling_a_piece_twice_changes_nothing() {
    let mut board = Board::new(STARTING_POS);
    let before = snapshot(&board);
    board.toggle_piece(pieces::WHITE_QUEEN, 35);
    assert_eq!(board.get(35), pieces::WHITE_QUEEN);
    assert_eq!(board.color_bitboards[pieces::WHITE] & (1 << 35), 1 << 35);
    board.toggle_piece(pieces::WHITE_QUEEN, 35);
    assert_same(&snapshot(&board), &before);
    board.move_piece(pieces::BLACK_KNIGHT, 1, 18);
    assert_eq!(board.get(18), pieces::BLACK_KNIGHT);
    assert_eq!(board.get(1), pieces::NONE);
    board.move_piece(pieces::BLACK_KNIGHT, 18, 1);
    assert_same(&snapshot(&board), &before);
}
