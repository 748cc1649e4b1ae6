use maxwell::board::Board;
use maxwell::bot::{Bot, BotOutput, MAX_KILLER_MOVE_PLY, MAX_PLY};
use maxwell::castling_rights::CastlingRights;
use maxwell::constants::CHECKMATE;
use maxwell::move_data::MoveData;
use maxwell::transposition_table::{EvalBound, TTEntry, TranspositionTable};
use maxwell::value_holder::ValueHolder;

const STARTING_POS: &str = "rnbqkbnr/pppppppp/8/8/8/8/PPPPPPPP/RNBQKBNR w KQkq - 0 1";
const PAWN_UP: &str = "4k3/8/8/8/8/8/4P3/4K3 w - - 0 1";
const MATED: &str = "R5k1/5ppp/8/8/8/8/8/4K3 b - - 0 1";
const STALEMATED: &str = "7k/5Q2/6K1/8/8/8/8/8 b - - 0 1";

#[test]
fn mate_and_stalemate_count_at_the_last_ply() {
    assert_eq!(MAX_PLY, 255);
    for depth in [1u8, 2, 200] {
        let mut mated = Bot::new(MATED, 1);
        assert_eq!(
            mated.ab_search(depth, MAX_PLY, -i16::MAX, i16::MAX),
            -(CHECKMATE - MAX_PLY as i16)
        );
        assert_eq!(mated.ab_search(depth, 128, -i16::MAX, i16::MAX), -(CHECKMATE - 128));
        let mut stale = Bot::new(STALEMATED, 1);
        assert_eq!(stale.ab_search(depth, MAX_PLY, -i16::MAX, i16::MAX), 0);
        assert_eq!(stale.ab_search(depth, 128, -i16::MAX, i16::MAX), 0);
    }
}

#[test]
fn the_last_ply_plays_out_the_captures() {
    for fen in [PAWN_UP, "4k3/8/8/3q4/8/8/8/3RK3 w - - 0 1", STARTING_POS] {
        let mut bot = Bot::new(fen, 0);
        let quiet = bot.q_search(-i16::MAX, i16::MAX);
        let before = bot.board.generate_fen();
        assert_eq!(bot.ab_search(3, MAX_PLY, -i16::MAX, i16::MAX), quiet);
        assert_eq!(bot.ab_search(3, MAX_PLY, quiet - 30, quiet - 10), quiet - 10);
        assert_eq!(bot.board.generate_fen(), before);
    }
}

#[test]
fn a_board_tells_whether_a_move_is_legal() {
    for (fen, expected) in [
        (STARTING_POS, true),
        (PAWN_UP, true),
        (MATED, false),
        (STALEMATED, false),
        ("7k/5Q2/5K2/8/8/8/8/8 b - - 0 1", false),
        ("7k/5Q2/5K2/8/8/8/8/8 w - - 0 1", true),
        ("8/8/8/8/8/5k2/6q1/7K w - - 0 1", false),
        ("8/8/8/8/8/5kr1/8/7K w - - 0 1", true),
    ] {
        let mut board = Board::new(fen);
        let before = board.generate_fen();
        assert_eq!(board.has_legal_move(), expected);
        assert_eq!(board.generate_fen(), before);
    }
}

#[test]
fn a_report_tells_the_evaluation() {
    let mut bot = Bot::new("4k3/8/8/3q4/8/8/8/3RK3 w - - 0 1", 1);
    bot.go(None, 3, BotOutput::Uci);
    assert_eq!(bot.reports.len(), 3);
    let last = bot.reports.last().unwrap();
    assert_eq!(last.depth, 3);
    assert_eq!(last.eval, bot.best_eval);
    assert_eq!(last.best_move, bot.best_move);
    assert!(!last.mate);
    assert_eq!(last.score, bot.best_eval);

    let mut mating = Bot::new("4k3/8/8/8/8/8/4R3/4K2R w K - 0 1", 1);
    mating.go(None, 2, BotOutput::Uci);
    let last = mating.reports.last().unwrap();
    assert_eq!(last.eval, CHECKMATE - 1);
    assert!(last.mate);
    assert_eq!(last.score, 1);
    assert_eq!(last.best_move, mating.best_move);

    let mut black = Bot::new("4k2r/3r4/8/8/8/8/8/4K3 b k - 0 1", 1);
    black.go(None, 4, BotOutput::Uci);
    let last = black.reports.last().unwrap();
    assert_eq!(last.eval, CHECKMATE - 3);
    assert!(last.mate);
    assert_eq!(last.score, -2);
    for report in black.reports.iter() {
        if report.mate {
            assert!(report.eval > CHECKMATE - 1000 || report.eval < -(CHECKMATE - 1000));
            let plies = CHECKMATE - report.eval.abs();
            assert!(plies <= report.depth as i16);
            assert_eq!(report.score, -((plies + 1) / 2));
        } else {
            assert_eq!(report.score, report.eval);
        }
    }
}

#[test]
fn a_search_with_a_table_finds_a_move() {
    for fen in [STARTING_POS, PAWN_UP, "7k/5Q2/5K2/8/8/8/8/8 w - - 0 1", "4k3/8/8/3q4/8/8/8/3RK3 w - - 0 1"] {
        for mbs in [0usize, 1] {
            let mut bot = Bot::new(fen, mbs);
            for depth in 1..=3u8 {
                bot.go(None, depth, BotOutput::Uci);
                let best = bot.best_move;
                assert!(best != MoveData::null());
                assert!(bot.board.make_move(&best));
                bot.board.undo_move(&best);
                let last = bot.reports.last().unwrap();
                assert_eq!(last.best_move, best);
                assert_eq!(last.eval, bot.best_eval);
            }
        }
    }
}

#[test]
fn a_quiet_refutation_is_remembered() {
    let mut bot = Bot::new(PAWN_UP, 1);
    let key = bot.board.zobrist.key.peek();
    assert_eq!(bot.ab_search(1, 1, -500, -400), -400);
    let killer = bot.killer_moves[1].moves[0];
    assert!(killer != MoveData::null());
    assert_eq!(bot.killer_moves[1].moves[1], MoveData::null());
    assert_eq!(bot.killer_moves[0].moves[0], MoveData::null());
    assert_eq!(bot.killer_moves[2].moves[0], MoveData::null());
    assert_eq!(bot.history[1][killer.from as usize][killer.to as usize], 1);
    let total: i32 = bot.history.iter().flatten().flatten().map(|&h| h as i32).sum();
    assert_eq!(total, 1);
    let entry = bot.transposition_table.get(key).unwrap();
    assert_eq!(entry.key, key);
    assert_eq!(entry.best_move, killer);
    assert_eq!(entry.eval_bound, EvalBound::Beta);
    assert_eq!(entry.eval, -400);
    assert_eq!(entry.depth, 1);

    assert_eq!(bot.ab_search(1, 1, -500, -400), -400);
    assert_eq!(bot.history[1][killer.from as usize][killer.to as usize], 1);

    let mut deep = Bot::new(PAWN_UP, 0);
    assert_eq!(deep.ab_search(3, 2, -500, -400), -400);
    let killer = deep.killer_moves[2].moves[0];
    assert!(killer != MoveData::null());
    assert!(deep.history[1][killer.from as usize][killer.to as usize] >= 9);
    assert!(deep.transposition_table.get(key).is_none());
}

#[test]
fn no_killer_move_is_kept_far_from_the_root() {
    let mut bot = Bot::new(PAWN_UP, 1);
    let key = bot.board.zobrist.key.peek();
    assert_eq!(bot.ab_search(1, MAX_KILLER_MOVE_PLY, -500, -400), -400);
    for killers in bot.killer_moves.iter() {
        assert_eq!(killers.moves[0], MoveData::null());
        assert_eq!(killers.moves[1], MoveData::null());
    }
    let entry = bot.transposition_table.get(key).unwrap();
    assert_eq!(entry.eval_bound, EvalBound::Beta);
    assert_eq!(bot.history[1][entry.best_move.from as usize][entry.best_move.to as usize], 1);
}

#[test]
fn the_table_keeps_what_the_search_found() {
    let mut exact = Bot::new(PAWN_UP, 1);
    let key = exact.board.zobrist.key.peek();
    let eval = exact.ab_search(2, 1, -i16::MAX, i16::MAX);
    let entry = exact.transposition_table.get(key).unwrap();
    assert_eq!(entry.eval_bound, EvalBound::Exact);
    assert_eq!(entry.eval, eval);
    assert_eq!(entry.depth, 2);
    assert!(exact.board.make_move(&entry.best_move));
    assert_eq!(exact.killer_moves[1].moves[0], MoveData::null());

    let mut low = Bot::new(PAWN_UP, 1);
    assert_eq!(low.ab_search(2, 1, 600, 700), 600);
    let entry = low.transposition_table.get(key).unwrap();
    assert_eq!(entry.eval_bound, EvalBound::Alpha);
    assert_eq!(entry.eval, 600);
    assert_eq!(entry.best_move, MoveData::null());
    assert_eq!(entry.depth, 2);
    assert_eq!(low.killer_moves[1].moves[0], MoveData::null());
}

#[test]
fn a_table_of_any_size_that_fits_is_made() {
    let table = TranspositionTable::new(0);
    assert_eq!(table.table.len(), 0);
    let mut table = TranspositionTable::new(3);
    assert_eq!(table.mbs, 3);
    assert_eq!(table.table.len(), 3 * 1024 * 1024 / 24);
    table.resize(2);
    assert_eq!(table.mbs, 2);
    assert_eq!(table.table.len(), 2 * 1024 * 1024 / 24);
    assert_eq!(table.entries, 0);
}

#[test]
fn a_popped_value_stays_behind_the_index() {
    let mut holder = ValueHolder::new(1u64);
    holder.push(2);
    holder.push(3);
    holder.pop();
    assert_eq!(holder.index, 1);
    assert_eq!(holder.history, vec![1, 2, 3]);
    assert_eq!(holder.peek(), 2);
    holder.push(4);
    assert_eq!(holder.index, 2);
    assert_eq!(holder.history, vec![1, 2, 4]);
    holder.push(5);
    assert_eq!(holder.history, vec![1, 2, 4, 5]);
}

#[test]
fn a_lost_rook_square_clears_its_right() {
    for (square, expected) in [(0u8, 0b1110u8), (7, 0b1101), (56, 0b1011), (63, 0b0111), (4, 0b1111)] {
        let mut rights = CastlingRights(0b1111);
        rights.remove_one(square);
        assert_eq!(rights.0, expected);
        let mut none = CastlingRights(0);
        none.remove_one(square);
        assert_eq!(none.0, 0);
    }
}

#[test]
fn a_root_that_only_leads_to_draws_is_worth_nothing() {
    for fen in [
        "4k3/7r/8/8/8/8/R7/4K3 w - - 99 60",
        "4k3/7r/8/8/8/8/R7/4K3 w - - 100 60",
        "4k3/8/8/8/8/8/R7/4K3 b - - 120 80",
    ] {
        for mbs in [0usize, 1] {
            let mut bot = Bot::new(fen, mbs);
            assert!(bot.board.is_valid());
            for depth in 1..=4u8 {
                bot.go(None, depth, BotOutput::Uci);
                assert_eq!(bot.best_eval, 0);
                assert!(bot.best_move != MoveData::null());
                let last = bot.reports.last().unwrap();
                assert!(!last.mate);
                assert_eq!(last.score, 0);
                assert_eq!(last.eval, 0);
            }
            bot.go(Some(30), 3, BotOutput::Quiet);
            assert_eq!(bot.best_eval, 0);
        }
    }
}

#[test]
fn a_capture_at_the_root_starts_the_clock_anew() {
    let mut bot = Bot::new("4k3/7r/8/8/8/8/7R/4K3 w - - 100 60", 1);
    assert!(bot.board.is_draw());
    bot.go(None, 2, BotOutput::Quiet);
    assert_eq!(bot.best_move.to_coordinates(), "h2h7");
    assert!(bot.best_eval > 300);
    assert_eq!(bot.ab_search(2, 1, -i16::MAX, i16::MAX), 0);
    assert_eq!(bot.ab_search(2, 1, 50, 60), 0);
}

#[test]
fn a_node_is_settled_without_a_move() {
    let mut bot = Bot::new(PAWN_UP, 1);
    let key = bot.board.zobrist.key.peek();
    let quiet = bot.q_search(-i16::MAX, i16::MAX);
    assert_eq!(bot.ab_search(0, 0, -i16::MAX, i16::MAX), quiet);
    assert_eq!(bot.ab_search(0, 3, quiet + 5, quiet + 9), quiet + 5);
    assert_eq!(bot.ab_search(3, 10, CHECKMATE - 5, CHECKMATE - 4), CHECKMATE - 5);
    assert_eq!(bot.ab_search(3, 10, -(CHECKMATE - 4), -(CHECKMATE - 5)), -(CHECKMATE - 10));
    assert!(bot.transposition_table.get(key).is_none());

    let entry = TTEntry {
        key,
        best_move: MoveData::null(),
        eval_bound: EvalBound::Exact,
        eval: 37,
        depth: 5,
    };
    bot.transposition_table.store(entry, 0);
    assert_eq!(bot.ab_search(3, 1, -100, 100), 37);
    assert_eq!(bot.ab_search(5, 2, 50, 60), 37);
    assert_eq!(bot.transposition_table.get(key).unwrap().eval, 37);
    assert_eq!(bot.killer_moves[1].moves[0], MoveData::null());

    bot.search_cancelled = true;
    assert_eq!(bot.ab_search(3, 1, -100, 100), 0);
    assert_eq!(bot.ab_search(3, 0, -100, 100), 0);
    assert!(bot.search_cancelled);
}
