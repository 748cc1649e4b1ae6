use maxwell::board::Board;
use maxwell::bot::{
    bumped_history, mate_distance_window, mate_in_moves, negatable, score_move,
    terminal_eval, time_is_up, Bot, BotOutput, KillerMoves, MAX_KILLER_MOVE_PLY, MVV_LVA,
};
use maxwell::constants::{square_to_index, CHECKMATE};
use maxwell::move_data::flag;
use maxwell::move_data::MoveData;
use maxwell::movegen::ALL_MOVES;
use maxwell::pieces;
use maxwell::transposition_table::{EvalBound, TTEntry, TranspositionTable};

const STARTING_POS: &str = "rnbqkbnr/pppppppp/8/8/8/8/PPPPPPPP/RNBQKBNR w KQkq - 0 1";

fn has_legal_move(board: &mut Board) -> bool {
    let list = board.get_moves(ALL_MOVES);
    for (m, _) in list.moves.iter() {
        if board.make_move(m) {
            board.undo_move(m);
            return true;
        }
    }
    false
}

fn quiet(from: u8, to: u8, piece: u8) -> MoveData {
    MoveData { from, to, piece, flag: flag::NONE }
}

#[test]
fn mate_in_one_is_played() {
    for depth in 2..=4u8 {
        let mut bot = Bot::new("4k3/8/8/8/8/8/4R3/4K2R w K - 0 1", 1);
        assert!(bot.board.is_valid());
        let fen = bot.board.generate_fen();
        bot.go(None, depth, BotOutput::Uci);
        assert_eq!(bot.board.generate_fen(), fen);
        let best = bot.best_move;
        assert!(best != MoveData::null());
        assert!(bot.board.make_move(&best));
        assert!(bot.board.in_check());
        assert!(!has_legal_move(&mut bot.board));
        assert_eq!(bot.best_eval, CHECKMATE - 1);
        let last = bot.reports.last().unwrap();
        assert!(last.mate);
        assert_eq!(last.score, 1);
        assert_eq!(last.best_move, best);
        assert!(last.pv.starts_with(&best.to_coordinates()));
    }
}

#[test]
fn stalemate_is_avoided() {
    for depth in 2..=4u8 {
        let mut bot = Bot::new("7k/5Q2/5K2/8/8/8/8/8 w - - 0 1", 1);
        bot.go(None, depth, BotOutput::Quiet);
        let played = bot.best_move.to_coordinates();
        assert_ne!(played, "f7g6");
        assert_ne!(played, "f7f8");
        assert_eq!(bot.best_move.piece, pieces::WHITE_QUEEN);
        assert_eq!(played, "f7g7");
        assert_eq!(bot.best_eval, CHECKMATE - 1);
        assert!(bot.reports.is_empty());
    }
}

#[test]
fn a_drawn_position_scores_zero() {
    let mut bot = Bot::new("4k3/7r/8/8/8/8/R7/4K3 w - - 99 60", 1);
    assert!(bot.board.try_move("a2a3"));
    assert!(bot.board.is_draw());
    for depth in 1..=3u8 {
        bot.go(None, depth, BotOutput::Quiet);
        assert_eq!(bot.best_eval, 0);
        assert!(bot.board.is_draw());
    }
    let score = bot.ab_search(3, 1, -i16::MAX, i16::MAX);
    assert_eq!(score, 0);
}

#[test]
fn search_leaves_the_position_alone() {
    let mut bot = Bot::new("r3k2r/p1ppqpb1/bn2pnp1/3PN3/1p2P3/2N2Q1p/PPPBBPPP/R3K2R w KQkq - 0 1", 1);
    let fen = bot.board.generate_fen();
    let key = bot.board.zobrist.key.peek();
    let boards = bot.board.piece_bitboards;
    bot.go(None, 3, BotOutput::Uci);
    assert_eq!(bot.board.generate_fen(), fen);
    assert_eq!(bot.board.zobrist.key.peek(), key);
    assert_eq!(bot.board.piece_bitboards, boards);
    assert_eq!(bot.board.history.len(), 1);
    assert_eq!(bot.reports.len(), 3);
    for (i, report) in bot.reports.iter().enumerate() {
        assert_eq!(report.depth as usize, i + 1);
        assert!(!report.mate);
    }
    let best = bot.best_move;
    assert!(bot.board.make_move(&best));
}

#[test]
fn a_hanging_queen_is_taken() {
    let mut bot = Bot::new("4k3/8/8/3q4/8/8/8/3RK3 w - - 0 1", 1);
    bot.go(None, 3, BotOutput::Quiet);
    assert_eq!(bot.best_move.to_coordinates(), "d1d5");
    assert!(bot.best_eval > 400);
}

#[test]
fn depth_zero_searches_nothing() {
    let mut bot = Bot::new(STARTING_POS, 1);
    bot.go(None, 0, BotOutput::Uci);
    assert_eq!(bot.best_move, MoveData::null());
    assert!(bot.reports.is_empty());
}

#[test]
fn a_cancelled_search_returns_zero() {
    let mut bot = Bot::new(STARTING_POS, 1);
    bot.search_cancelled = true;
    assert!(bot.should_cancel_search());
    assert_eq!(bot.ab_search(3, 0, -i16::MAX, i16::MAX), 0);
    assert!(bot.search_cancelled);
    bot.search_cancelled = false;
    bot.movetime = None;
    assert!(!bot.should_cancel_search());
}

#[test]
fn a_time_limit_ends_the_search() {
    let mut bot = Bot::new(STARTING_POS, 1);
    bot.go(Some(0), 100, BotOutput::Uci);
    assert!(bot.search_cancelled);
    assert!(bot.reports.len() < 100);
    let mut timed = Bot::new(STARTING_POS, 1);
    timed.go(Some(50), 100, BotOutput::Uci);
    assert!(timed.search_cancelled);
    assert!(timed.best_move != MoveData::null());
    let best = timed.best_move;
    assert!(timed.board.make_move(&best));
}

#[test]
fn no_legal_move_is_mate_or_stalemate() {
    let mut mated = Bot::new("R5k1/5ppp/8/8/8/8/8/4K3 b - - 0 1", 1);
    assert_eq!(mated.ab_search(2, 0, -i16::MAX, i16::MAX), -CHECKMATE);
    assert_eq!(mated.ab_search(2, 3, -i16::MAX, i16::MAX), -(CHECKMATE - 3));
    let mut stale = Bot::new("7k/5Q2/6K1/8/8/8/8/8 b - - 0 1", 0);
    assert_eq!(stale.ab_search(2, 0, -i16::MAX, i16::MAX), 0);
    assert_eq!(terminal_eval(true, 5), -(CHECKMATE - 5));
    assert_eq!(terminal_eval(false, 5), 0);
}

#[test]
fn quiescence_stands_pat_or_captures() {
    let mut quiet_position = Bot::new("4k3/8/8/8/8/8/4P3/4K3 w - - 0 1", 1);
    assert_eq!(quiet_position.q_search(-i16::MAX, i16::MAX), 80);
    assert_eq!(quiet_position.q_search(-i16::MAX, 50), 50);
    assert_eq!(quiet_position.q_search(100, 200), 100);
    let mut hanging = Bot::new("4k3/8/8/3q4/8/8/8/3RK3 w - - 0 1", 1);
    let stand_pat = hanging.board.simple_eval();
    assert!(stand_pat < 0);
    let fen = hanging.board.generate_fen();
    let score = hanging.q_search(-i16::MAX, i16::MAX);
    assert!(score > 400);
    assert_eq!(hanging.board.generate_fen(), fen);
    assert!(hanging.q_nodes >= 2);
}

#[test]
fn mate_distance_window_narrows() {
    assert_eq!(mate_distance_window(-i16::MAX, i16::MAX, 3), (-(CHECKMATE - 3), CHECKMATE - 4));
    assert_eq!(mate_distance_window(-50, 70, 3), (-50, 70));
    assert_eq!(mate_distance_window(CHECKMATE - 2, i16::MAX, 5), (CHECKMATE - 2, CHECKMATE - 6));
    assert_eq!(mate_in_moves(CHECKMATE - 1, 1), 1);
    assert_eq!(mate_in_moves(CHECKMATE - 3, 1), 2);
    assert_eq!(mate_in_moves(CHECKMATE - 4, -1), -2);
    assert_eq!(mate_in_moves(-(CHECKMATE - 2), 1), 1);
    assert_eq!(negatable(i16::MIN), -i16::MAX);
    assert_eq!(negatable(-5), -5);
}

#[test]
fn moves_are_scored_for_ordering() {
    let root = quiet(52, 36, pieces::WHITE_PAWN);
    let table = quiet(62, 45, pieces::WHITE_KNIGHT);
    let other = quiet(51, 35, pieces::WHITE_PAWN);
    let null = MoveData::null();
    assert_eq!(score_move(&root, &root, &table, pieces::NONE, 0, false), i16::MAX);
    assert_eq!(score_move(&table, &root, &table, pieces::BLACK_QUEEN, 0, false), i16::MAX - 1);
    assert_eq!(score_move(&other, &root, &table, pieces::NONE, 0, false), 0);
    assert_eq!(score_move(&other, &root, &table, pieces::NONE, 37, false), 37);
    assert_eq!(score_move(&other, &root, &table, pieces::NONE, 37, true), 10_037);
    assert_eq!(score_move(&other, &null, &null, pieces::NONE, i16::MAX, true), i16::MAX);
    assert_eq!(score_move(&other, &null, &null, pieces::BLACK_QUEEN, 900, true), 20_055);
    let queen = quiet(59, 3, pieces::WHITE_QUEEN);
    assert_eq!(score_move(&queen, &null, &null, pieces::BLACK_QUEEN, 0, false), 20_051);
    assert_eq!(score_move(&queen, &null, &null, pieces::BLACK_PAWN, 0, false), 20_011);
    assert!(MVV_LVA[pieces::PAWN as usize * 6 + pieces::QUEEN as usize]
        > MVV_LVA[pieces::QUEEN as usize * 6 + pieces::QUEEN as usize]);
    assert!(MVV_LVA[pieces::QUEEN as usize * 6 + pieces::ROOK as usize]
        > MVV_LVA[pieces::PAWN as usize * 6 + pieces::BISHOP as usize]);
    assert_eq!(bumped_history(10, 4), 26);
    assert_eq!(bumped_history(32_000, 100), i16::MAX);
    assert_eq!(bumped_history(0, 255), i16::MAX);
}

#[test]
fn move_lists_are_scored() {
    let mut bot = Bot::new("4k3/8/8/3q4/8/8/8/3RK3 w - - 0 1", 1);
    let mut list = bot.board.get_moves(ALL_MOVES);
    let killer = quiet(square_to_index("d1"), square_to_index("d2"), pieces::WHITE_ROOK);
    let root = quiet(square_to_index("e1"), square_to_index("e2"), pieces::WHITE_KING);
    let table = quiet(square_to_index("d1"), square_to_index("c1"), pieces::WHITE_ROOK);
    bot.killer_moves[2].add(killer);
    bot.history[1][square_to_index("d1") as usize][square_to_index("d3") as usize] = 44;
    bot.score_move_list(&mut list, &root, &table, 2);
    for (m, score) in list.moves.iter() {
        let text = m.to_coordinates();
        let expected = match text.as_str() {
            "e1e2" => i16::MAX,
            "d1c1" => i16::MAX - 1,
            "d1d5" => 20_000 + 52,
            "d1d2" => 10_000,
            "d1d3" => 44,
            _ => 0,
        };
        assert_eq!(*score, expected);
    }
    let first = list.next(0);
    assert_eq!(first, root);
    assert_eq!(list.next(1), table);
    assert_eq!(list.next(2).to_coordinates(), "d1d5");
    assert_eq!(list.next(3), killer);
    assert_eq!(list.next(4).to_coordinates(), "d1d3");
    let mut unscored_at_far_ply = bot.board.get_moves(ALL_MOVES);
    bot.score_move_list(&mut unscored_at_far_ply, &MoveData::null(), &MoveData::null(), MAX_KILLER_MOVE_PLY);
    assert!(unscored_at_far_ply.moves.iter().all(|(m, score)| *score != 10_000 || *m != killer));
}

#[test]
fn killer_moves_keep_the_last_two() {
    let mut killers = KillerMoves::empty();
    let a = quiet(1, 2, 3);
    let b = quiet(4, 5, 6);
    let c = quiet(7, 8, 9);
    assert!(!killers.is_killer(&a));
    assert!(killers.is_killer(&MoveData::null()));
    killers.add(a);
    assert!(killers.is_killer(&a));
    killers.add(b);
    assert_eq!(killers.moves, [b, a]);
    killers.add(a);
    assert_eq!(killers.moves, [b, a]);
    killers.add(c);
    assert_eq!(killers.moves, [c, b]);
    assert!(!killers.is_killer(&a));
}

#[test]
fn short_term_memory_is_cleared() {
    let mut bot = Bot::new(STARTING_POS, 0);
    bot.history[1][3][4] = 99;
    bot.killer_moves[0].add(quiet(1, 2, 3));
    bot.clear_short_term_mem();
    assert_eq!(bot.history[1][3][4], 0);
    assert!(!bot.killer_moves[0].is_killer(&quiet(1, 2, 3)));
}

#[test]
fn search_works_without_a_table() {
    let mut bot = Bot::new("4k3/8/8/8/8/8/4R3/4K2R w K - 0 1", 0);
    assert_eq!(bot.transposition_table.table.len(), 0);
    bot.go(None, 3, BotOutput::Uci);
    assert_eq!(bot.best_eval, CHECKMATE - 1);
    assert_eq!(bot.transposition_table.entries, 0);
    assert!(bot.reports.iter().all(|report| report.pv.is_empty()));
}

#[test]
fn principal_variation_follows_the_table() {
    let mut bot = Bot::new(STARTING_POS, 1);
    assert_eq!(bot.find_pv(3), "");
    let key = bot.board.zobrist.key.peek();
    let e4 = MoveData { from: 52, to: 36, piece: pieces::WHITE_PAWN, flag: flag::DOUBLE_PAWN_PUSH };
    bot.transposition_table.store(
        TTEntry { key, best_move: e4, eval_bound: EvalBound::Exact, eval: 10, depth: 1 },
        0,
    );
    let fen = bot.board.generate_fen();
    assert_eq!(bot.find_pv(3), "e2e4 ");
    assert_eq!(bot.find_pv(0), "");
    assert_eq!(bot.board.generate_fen(), fen);
    let mut after = Board::new(STARTING_POS);
    assert!(after.try_move("e2e4"));
    let e5 = MoveData { from: 12, to: 28, piece: pieces::BLACK_PAWN, flag: flag::DOUBLE_PAWN_PUSH };
    bot.transposition_table.store(
        TTEntry {
            key: after.zobrist.key.peek(),
            best_move: e5,
            eval_bound: EvalBound::Exact,
            eval: 10,
            depth: 1,
        },
        0,
    );
    assert_eq!(bot.find_pv(3), "e2e4 e7e5 ");
    assert_eq!(bot.find_pv(1), "e2e4 ");
}

#[test]
fn time_is_shared_out() {
    let bot = Bot::new(STARTING_POS, 0);
    assert_eq!(bot.partition_time(60_000), 3_000);
    assert_eq!(bot.partition_time(19), 0);
    assert_eq!(bot.partition_time(20), 1);
    assert!(time_is_up(5, 5));
    assert!(!time_is_up(4, 5));
    assert!(time_is_up(u128::MAX, u64::MAX));
}

#[test]
fn table_size_is_kept_by_the_search() {
    let mut bot = Bot::new(STARTING_POS, 2);
    let slots = bot.transposition_table.table.len();
    assert_eq!(slots, 2 * 1024 * 1024 / 24);
    bot.go(None, 2, BotOutput::Quiet);
    assert_eq!(bot.transposition_table.table.len(), slots);
    assert_eq!(bot.transposition_table.mbs, 2);
    assert!(bot.transposition_table.entries > 0);
    let mut table = TranspositionTable::new(1);
    table.resize(3);
    assert_eq!(table.mbs, 3);
}
