use maxwell::board::Board;
use maxwell::perft::{perft, PerftResults};

const STARTING_POS: &str = "rnbqkbnr/pppppppp/8/8/8/8/PPPPPPPP/RNBQKBNR w KQkq - 0 1";
const KIWIPETE: &str = "r3k2r/p1ppqpb1/bn2pnp1/3PN3/1p2P3/2N2Q1p/PPPBBPPP/R3K2R w KQkq - 0 1";
const TEST_POSITION_4: &str = "r3k2r/Pppp1ppp/1b3nbN/nP6/BBP1P3/q4N2/Pp1P2PP/R2Q1RK1 w kq - 0 1";

fn leaves(fen: &str, depth: u8) -> u128 {
    let mut board = Board::new(fen);
    assert!(board.is_valid());
    let before = board.generate_fen();
    let key = board.zobrist.key.peek();
    let mut results = PerftResults { total_nodes: 0, leaf_nodes: 0 };
    perft(&mut board, depth, &mut results, true);
    assert_eq!(board.generate_fen(), before);
    assert_eq!(board.zobrist.key.peek(), key);
    results.leaf_nodes
}

#[test]
fn perft_start_depth_1() {
    assert_eq!(leaves(STARTING_POS, 1), 20);
}

#[test]
fn perft_start_depth_2() {
    assert_eq!(leaves(STARTING_POS, 2), 400);
}

#[test]
fn perft_start_depth_3() {
    assert_eq!(leaves(STARTING_POS, 3), 8_902);
}

#[test]
fn perft_start_depth_4() {
    assert_eq!(leaves(STARTING_POS, 4), 197_281);
}

#[test]
fn perft_kiwipete_depth_1() {
    assert_eq!(leaves(KIWIPETE, 1), 48);
}

#[test]
fn perft_kiwipete_depth_2() {
    assert_eq!(leaves(KIWIPETE, 2), 2_039);
}

#[test]
fn perft_kiwipete_depth_3() {
    assert_eq!(leaves(KIWIPETE, 3), 97_862);
}

#[test]
fn perft_position_4_depth_3() {
    assert_eq!(leaves(TEST_POSITION_4, 1), 6);
    assert_eq!(leaves(TEST_POSITION_4, 2), 264);
    assert_eq!(leaves(TEST_POSITION_4, 3), 9_467);
}

#[test]
fn perft_depth_0_counts_the_position() {
    assert_eq!(leaves(STARTING_POS, 0), 1);
}

#[test]
fn perft_counts_nodes() {
    let mut board = Board::new(STARTING_POS);
    let mut results = PerftResults { total_nodes: 0, leaf_nodes: 0 };
    perft(&mut board, 2, &mut results, true);
    assert_eq!(results.leaf_nodes, 400);
    assert_eq!(results.total_nodes, 420);
    let mut results = PerftResults { total_nodes: 0, leaf_nodes: 0 };
    perft(&mut board, 2, &mut results, false);
    assert_eq!(results.total_nodes, 421);
}

#[test]
fn perft_rook_endgame_with_en_passant_pins() {
    let fen = "8/2p5/3p4/KP5r/1R3p1k/8/4P1P1/8 w - - 0 1";
    assert_eq!(leaves(fen, 1), 14);
    assert_eq!(leaves(fen, 2), 191);
    assert_eq!(leaves(fen, 3), 2_812);
    assert_eq!(leaves(fen, 4), 43_238);
}

#[test]
fn perft_promotions_and_castling() {
    let fen = "rnbq1k1r/pp1Pbppp/2p5/8/2B5/8/PPP1NnPP/RNBQK2R w KQ - 1 8";
    assert_eq!(leaves(fen, 1), 44);
    assert_eq!(leaves(fen, 2), 1_486);
    assert_eq!(leaves(fen, 3), 62_379);
}

#[test]
fn perft_position_4_mirrored() {
    let fen = "r2q1rk1/pP1p2pp/Q4n2/bbp1p3/Np6/1B3NBn/pPPP1PPP/R3K2R b KQ - 0 1";
    assert_eq!(leaves(fen, 1), 6);
    assert_eq!(leaves(fen, 2), 264);
    assert_eq!(leaves(fen, 3), 9_467);
}
