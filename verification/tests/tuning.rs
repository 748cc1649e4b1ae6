use maxwell::board::Board;
use maxwell::bot::Bot;
use maxwell::piece_square_tables::{
    pst_value, MG_BISHOP_PST, MG_KING_PST, MG_KNIGHT_PST, MG_PAWN_PST, MG_QUEEN_PST, MG_ROOK_PST,
};
use maxwell::pieces;
use maxwell::texel::{play_game, q_search, tuned_eval, PARAMS};

fn tables() -> Vec<i16> {
    [MG_PAWN_PST, MG_KNIGHT_PST, MG_BISHOP_PST, MG_ROOK_PST, MG_QUEEN_PST, MG_KING_PST].concat()
}

#[test]
fn piece_square_tables_hold_the_worth_of_the_pieces() {
    assert_eq!(pst_value(pieces::PAWN, 52), 80);
    assert_eq!(pst_value(pieces::PAWN, 8), 150);
    assert_eq!(pst_value(pieces::KNIGHT, 0), 270);
    assert_eq!(pst_value(pieces::QUEEN, 35), 905);
    assert_eq!(pst_value(pieces::KING, 62), 30);
    assert_eq!(tables().len(), PARAMS);
    for kind in 0..6u8 {
        for square in 0..64usize {
            assert_eq!(pst_value(kind, square), tables()[kind as usize * 64 + square]);
        }
    }
}

#[test]
fn trial_tables_evaluate_for_white() {
    let params = tables();
    let white = Board::new("4k3/8/8/8/8/8/4P3/4K3 w - - 0 1");
    assert_eq!(tuned_eval(&white, &params), 80);
    assert_eq!(tuned_eval(&white, &params), white.simple_eval());
    let black = Board::new("4k3/8/8/8/8/8/4P3/4K3 b - - 0 1");
    assert_eq!(tuned_eval(&black, &params), 80);
    let mirrored = Board::new("4k3/4p3/8/8/8/8/8/4K3 w - - 0 1");
    assert_eq!(tuned_eval(&mirrored, &params), -80);
    let mut flat = vec![0i16; PARAMS];
    flat[52] = 7;
    flat[64 + 63 - 1] = 5;
    let both = Board::new("1n2k3/8/8/8/8/8/4P3/4K3 w - - 0 1");
    assert_eq!(tuned_eval(&both, &flat), 2);
    let full = Board::new("QQQQQQQQ/QQQQQQQQ/QQQQQQQQ/QQQQQQQQ/QQQQQQQQ/QQQQQQQQ/QQQQQQQQ/QQQQQQQQ");
    assert_eq!(tuned_eval(&full, &params), i16::MAX);
}

#[test]
fn trial_search_plays_out_the_captures() {
    let params = tables();
    let mut quiet = Bot::new("4k3/8/8/8/8/8/4P3/4K3 w - - 0 1", 0);
    assert_eq!(q_search(&mut quiet, -i16::MAX, i16::MAX, &params), 80);
    assert_eq!(q_search(&mut quiet, -i16::MAX, 50, &params), 50);
    assert_eq!(q_search(&mut quiet, 100, 200, &params), 100);
    let mut hanging = Bot::new("4k3/8/8/3q4/8/8/8/3RK3 w - - 0 1", 0);
    let fen = hanging.board.generate_fen();
    let stand_pat = tuned_eval(&hanging.board, &params);
    let after = Board::new("4k3/8/8/3R4/8/8/8/4K3 b - - 0 1");
    let expected = stand_pat.max(-tuned_eval(&after, &params));
    assert_eq!(q_search(&mut hanging, -i16::MAX, i16::MAX, &params), expected);
    assert_eq!(hanging.board.generate_fen(), fen);
}

#[test]
fn a_game_ends_with_the_mate() {
    let mut bot = Bot::new("7k/5Q2/5K2/8/8/8/8/8 w - - 0 1", 1);
    let record = play_game(&mut bot, Some(30), 10);
    assert_eq!(record.result, 0);
    assert!(record.positions.is_empty());
    assert_eq!(bot.board.history.len(), 2);
    assert_eq!(bot.board.generate_fen(), "7k/6Q1/5K2/8/8/8/8/8 b - - 1 1");
}

#[test]
fn a_game_stops_at_the_limit_or_the_draw() {
    let mut bot = Bot::new("8/8/4k3/8/8/3K4/4P3/8 w - - 0 1", 1);
    let record = play_game(&mut bot, Some(5), 3);
    assert!(record.positions.len() <= 3);
    assert!(record.result <= 2);
    assert!(bot.board.history.len() <= 4);
    assert_eq!(bot.board.history.len(), 1 + record.positions.len() + usize::from(record.result != 1));
    let mut idle = Bot::new("8/8/4k3/8/8/3K4/4P3/8 w - - 0 1", 1);
    let none = play_game(&mut idle, Some(5), 0);
    assert!(none.positions.is_empty());
    assert_eq!(none.result, 1);
    let mut drawn = Bot::new("8/8/4k3/8/8/3KB3/8/8 w - - 0 1", 1);
    let short = play_game(&mut drawn, Some(5), 50);
    assert_eq!(short.positions.len(), 1);
    assert_eq!(short.result, 1);
}
