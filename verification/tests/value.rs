use maxwell::board::Board;
use maxwell::bot::{Bot, BotOutput, MAX_PLY};
use maxwell::constants::CHECKMATE;
use maxwell::move_data::MoveData;
use maxwell::movegen::{ALL_MOVES, CAPTURES_ONLY};

/// The value of a position once the captures are played out, by trying
/// every capture.
fn quiet_value(board: &mut Board) -> i16 {
    let mut best = board.simple_eval();
    let list = board.get_moves(CAPTURES_ONLY);
    for (m, _) in list.moves.iter() {
        if board.make_move(m) {
            let worth = -quiet_value(board);
            board.undo_move(m);
            if worth > best {
                best = worth;
            }
        }
    }
    best
}

/// The value of a position searched to a depth, by trying every move.
fn node_value(board: &mut Board, depth: u8, ply: u8) -> i16 {
    if ply > 0 && board.is_draw() {
        return 0;
    }
    let in_check = board.in_check();
    let deeper = if in_check { depth + 1 } else { depth };
    if deeper == 0 {
        return quiet_value(board);
    }
    let mut best: Option<i16> = None;
    let list = board.get_moves(ALL_MOVES);
    for (m, _) in list.moves.iter() {
        if board.make_move(m) {
            let worth = if ply >= MAX_PLY { 0 } else { -node_value(board, deeper - 1, ply + 1) };
            board.undo_move(m);
            if best.map_or(true, |value| worth > value) {
                best = Some(worth);
            }
        }
    }
    if ply >= MAX_PLY && best.is_some() {
        return quiet_value(board);
    }
    match best {
        Some(value) => value,
        None => {
            if in_check {
                -(CHECKMATE - ply as i16)
            } else {
                0
            }
        }
    }
}

fn worth(board: &mut Board, m: &MoveData, depth: u8) -> i16 {
    let deeper = if board.in_check() { depth + 1 } else { depth };
    assert!(board.make_move(m));
    let value = -node_value(board, deeper - 1, 1);
    board.undo_move(m);
    value
}

const POSITIONS: [&str; 8] = [
    "rnbqkbnr/pppppppp/8/8/8/8/PPPPPPPP/RNBQKBNR w KQkq - 0 1",
    "8/2p5/3p4/KP5r/1R3p1k/8/4P1P1/8 w - - 0 1",
    "7k/5Q2/5K2/8/8/8/8/8 w - - 0 1",
    "4k3/8/8/3q4/8/8/8/3RK3 b - - 0 1",
    "4k3/pp6/8/3n4/4P3/8/PP6/4K3 w - - 0 1",
    "8/8/8/8/8/5k2/6q1/7K w - - 0 1",
    "r3k3/8/8/8/8/8/6p1/4K2R w Kq - 0 1",
    "4k3/8/8/8/3pP3/8/8/4K3 b - e3 0 1",
];

const BUSY_POSITIONS: [&str; 2] = [
    "r3k2r/p1ppqpb1/bn2pnp1/3PN3/1p2P3/2N2Q1p/PPPBBPPP/R3K2R w KQkq - 0 1",
    "r1bqkbnr/pppp1ppp/2n5/4p2Q/2B1P3/8/PPPP1PPP/RNB1K1NR w KQkq - 0 1",
];

#[test]
fn search_without_table_finds_the_value() {
    for fen in POSITIONS {
        for depth in 1..=2u8 {
            let mut bot = Bot::new(fen, 0);
            assert!(bot.board.is_valid());
            let expected = node_value(&mut bot.board, depth, 0);
            bot.go(None, depth, BotOutput::Quiet);
            let best = bot.best_move;
            if best == MoveData::null() {
                let list = bot.board.get_moves(ALL_MOVES);
                for (m, _) in list.moves.iter() {
                    assert!(!bot.board.make_move(m));
                }
            } else {
                assert_eq!(bot.best_eval, expected);
                assert_eq!(worth(&mut bot.board, &best, depth), expected);
            }
        }
    }
}

#[test]
fn alpha_beta_agrees_with_the_value_in_the_window() {
    for fen in POSITIONS {
        let mut bot = Bot::new(fen, 0);
        for ply in [0u8, 1, 4] {
            let expected = node_value(&mut bot.board, 2, ply);
            for (alpha, beta) in [(-i16::MAX, i16::MAX), (-50, 50), (0, 1), (-400, -100), (200, 900)] {
                let clamp = |value: i16| value.clamp(alpha, beta);
                bot.search_cancelled = false;
                bot.movetime = None;
                let result = bot.ab_search(2, ply, alpha, beta);
                assert_eq!(clamp(result), clamp(expected));
                assert!(!bot.search_cancelled);
            }
        }
    }
}

#[test]
fn quiescence_finds_the_value_of_the_captures() {
    for fen in POSITIONS {
        let mut bot = Bot::new(fen, 1);
        let expected = quiet_value(&mut bot.board);
        assert_eq!(bot.q_search(-i16::MAX, i16::MAX), expected);
        for (alpha, beta) in [(-50i16, 50i16), (0, 0), (-900, -300), (100, 2000)] {
            assert_eq!(bot.q_search(alpha, beta), expected.clamp(alpha, beta));
        }
    }
}

#[test]
fn playable_positions_stay_playable() {
    for fen in POSITIONS.iter().chain(BUSY_POSITIONS.iter()) {
        let mut board = Board::new(fen);
        assert!(board.is_playable());
        let list = board.get_moves(ALL_MOVES);
        for (m, _) in list.moves.iter() {
            if board.make_move(m) {
                assert!(board.is_playable());
                assert!(board.sole_king(true).is_some());
                assert!(board.sole_king(false).is_some());
                board.undo_move(m);
            }
        }
    }
}

#[test]
fn positions_that_cannot_occur_are_not_playable() {
    assert!(!Board::new("4k3/8/8/8/8/8/4R3/4K2R w K - 0 1").is_playable());
    assert!(Board::new("4k3/8/8/8/8/8/4R3/4K2R b K - 0 1").is_playable());
    assert!(!Board::new("8/8/8/8/8/8/8/4K3 w - - 0 1").is_playable());
    assert!(!Board::new("4k3/8/8/8/8/8/8/3KK3 w - - 0 1").is_playable());
    assert!(!Board::new("4k3/8/8/8/8/8/8/4K3 w K - 0 1").is_playable());
    let two_kings = Board::new("4k3/8/8/8/8/8/8/3KK3 w - - 0 1");
    assert_eq!(two_kings.sole_king(true), None);
    assert_eq!(two_kings.sole_king(false), Some(4));
    assert_eq!(Board::new("8/8/8/8/8/8/8/8 w - - 0 1").sole_king(true), None);
}

#[test]
fn attackers_are_found_for_either_side() {
    let board = Board::new("4k3/8/8/8/8/8/4R3/4K2R w K - 0 1");
    assert_eq!(board.get_attackers_by(4, true), 1u64 << 52);
    assert_eq!(board.get_attackers_by(4, false), 0);
    assert_eq!(board.get_attackers_of(4), 0);
    assert_eq!(board.get_attackers_by(61, true), (1u64 << 60) | (1u64 << 63));
}
