//! Positions as text: six fields separated by spaces, which give the pieces
//! row by row from the eighth rank, the side to move, the castling rights,
//! the en passant square, the number of plies since a capture or pawn move,
//! and the number of the move.

use vstd::prelude::*;
use vstd::string::StringExecFns;
use crate::board::{piece_on, Board};
use crate::castling_rights::CastlingRights;
use crate::constants::{file_str, name_index, row_str, square_name, square_to_index};
use crate::pieces;
use crate::pieces::{letter_piece, piece_letter};
use crate::position::{BoardState, BoardView};
use crate::utils::{has_bit, lemma_bit_zero, lemma_bits_equal, square_bit};
use crate::value_holder::ValueHolder;
use crate::zobrist::{position_key, Zobrist};

verus! {

/// The index of the first space at or after `from`, the length of the text if
/// there is none.
pub open spec fn find_space(text: Seq<char>, from: int) -> int
    decreases text.len() - from,
{
    if from >= text.len() {
        text.len() as int
    } else if text[from] == ' ' {
        from
    } else {
        find_space(text, from + 1)
    }
}

/// Where field `k` of a text starts. Fields are what stands between spaces;
/// a field that the text does not have starts behind its end.
pub open spec fn field_start(text: Seq<char>, k: nat) -> int
    decreases k,
{
    if k == 0 {
        0
    } else {
        let before = field_start(text, (k - 1) as nat);
        if before > text.len() {
            before
        } else {
            find_space(text, before) + 1
        }
    }
}

/// Field `k` of a text, if the text has that many fields.
pub open spec fn field(text: Seq<char>, k: nat) -> Option<Seq<char>> {
    let start = field_start(text, k);
    if start > text.len() {
        None
    } else {
        Some(text.subrange(start, find_space(text, start)))
    }
}

/// The first space at or after an index lies at or after it, nothing before
/// it is a space, and it is a space unless it is the end of the text.
pub proof fn lemma_find_space(text: Seq<char>, from: int)
    requires
        0 <= from <= text.len(),
    ensures
        from <= find_space(text, from) <= text.len(),
        forall|i: int| from <= i < find_space(text, from) ==> text[i] != ' ',
        find_space(text, from) < text.len() ==> text[find_space(text, from)] == ' ',
    decreases text.len() - from,
{
    if from < text.len() && text[from] != ' ' {
        lemma_find_space(text, from + 1);
    }
}

/// Whether a character is a digit.
pub open spec fn is_digit(c: char) -> bool {
    '0' <= c <= '9'
}

/// The value of a digit.
pub open spec fn digit_value(c: char) -> int {
    c as int - 48
}

/// The squares and the cursor after the first `n` characters of the field of
/// the pieces. The cursor starts on square 0. A digit moves it on by its
/// value, a piece letter puts the piece on the cursor's square and moves it on
/// by one; any other character does nothing. The cursor stops behind the last
/// square, and what would come after that is dropped.
pub open spec fn placement(text: Seq<char>, n: nat) -> (Seq<u8>, int)
    decreases n,
{
    if n == 0 {
        (Seq::new(64, |i: int| pieces::NONE), 0)
    } else {
        let (squares, cursor) = placement(text, (n - 1) as nat);
        let c = text[n - 1];
        if is_digit(c) {
            (squares, if cursor + digit_value(c) > 64 { 64 } else { cursor + digit_value(c) })
        } else if letter_piece(c) != pieces::NONE && cursor < 64 {
            (squares.update(cursor, letter_piece(c)), cursor + 1)
        } else {
            (squares, cursor)
        }
    }
}

/// The number that a text of digits stands for, if it is at most 255; 0 for
/// any other text.
pub open spec fn small_number(text: Seq<char>) -> u8 {
    if text.len() > 0 && number_upto(text, text.len()) is Some {
        number_upto(text, text.len())->Some_0
    } else {
        0
    }
}

/// The number that the first `n` characters stand for, if they are digits and
/// the number is at most 255.
pub open spec fn number_upto(text: Seq<char>, n: nat) -> Option<u8>
    decreases n,
{
    if n == 0 {
        Some(0u8)
    } else {
        match number_upto(text, (n - 1) as nat) {
            None => None,
            Some(before) => if is_digit(text[n - 1]) && before * 10 + digit_value(text[n - 1])
                <= 255 {
                Some((before * 10 + digit_value(text[n - 1])) as u8)
            } else {
                None
            },
        }
    }
}

/// The state that a position text gives: no capture, the castling rights of
/// the third field (none without it), the en passant square of the fourth
/// (none without it, or if it names no square), the clock of the fifth (0
/// without it, or if it is no number up to 255).
pub open spec fn fen_state(text: Seq<char>) -> BoardState {
    BoardState {
        capture: pieces::NONE,
        castling_rights: match field(text, 2) {
            Some(rights) => CastlingRights(
                crate::castling_rights::rights_bits(
                    rights.contains('K'),
                    rights.contains('Q'),
                    rights.contains('k'),
                    rights.contains('q'),
                ),
            ),
            None => CastlingRights(0),
        },
        en_passant_square: match field(text, 3) {
            Some(name) => name_index(name),
            None => 0,
        },
        halfmove_clock: match field(text, 4) {
            Some(clock) => small_number(clock),
            None => 0,
        },
    }
}

/// Whether a position text has White to move: the second field is `w`, or
/// there is none.
pub open spec fn fen_white_to_move(text: Seq<char>) -> bool {
    match field(text, 1) {
        Some(side) => side == seq!['w'],
        None => true,
    }
}

/// The position that a text stands for.
pub open spec fn fen_position(text: Seq<char>) -> BoardView {
    let squares = placement(field(text, 0)->Some_0, field(text, 0)->Some_0.len()).0;
    let state = fen_state(text);
    let white_to_move = fen_white_to_move(text);
    BoardView {
        squares,
        white_to_move,
        states: seq![state],
        keys: seq![
            position_key(
                squares,
                state.castling_rights.0,
                state.en_passant_square,
                white_to_move,
            ),
        ],
    }
}

/// The index of the first space at or after `from`.
fn next_space(text: &str, len: usize, from: usize) -> (end: usize)
    requires
        len == text@.len(),
        from <= len,
    ensures
        end == find_space(text@, from as int),
        from <= end <= len,
{
    let mut i = from;
    while i < len
        invariant
            from <= i <= len,
            len == text@.len(),
            find_space(text@, from as int) == find_space(text@, i as int),
        decreases len - i,
    {
        if text.get_char(i) == ' ' {
            return i;
        }
        i += 1;
    }
    i
}

/// The number that a text stands for, 0 if it stands for none up to 255.
fn parse_small_number(text: &str) -> (value: u8)
    ensures
        value == small_number(text@),
{
    let n = text.unicode_len();
    if n == 0 {
        return 0;
    }
    let mut value: u8 = 0;
    let mut i: usize = 0;
    while i < n
        invariant
            i <= n,
            n == text@.len(),
            number_upto(text@, i as nat) == Some(value),
        decreases n - i,
    {
        let c = text.get_char(i);
        if !('0' <= c && c <= '9') {
            proof {
                lemma_number_fails(text@, (i + 1) as nat, n as nat);
            }
            return 0;
        }
        let digit: u16 = (c as u8 - 48) as u16;
        let next: u16 = value as u16 * 10 + digit;
        if next > 255 {
            proof {
                lemma_number_fails(text@, (i + 1) as nat, n as nat);
            }
            return 0;
        }
        value = next as u8;
        i += 1;
    }
    value
}

/// A text that stands for no number from some length on stands for none in
/// full.
proof fn lemma_number_fails(text: Seq<char>, low: nat, high: nat)
    requires
        low <= high,
        number_upto(text, low) is None,
    ensures
        number_upto(text, high) is None,
    decreases high - low,
{
    if low < high {
        lemma_number_fails(text, low, (high - 1) as nat);
    }
}

impl Board {
    /// Everything that holds of a well-formed board but for the two things
    /// that a position text could get wrong: castling rights without the
    /// rook and king at home, and an en passant square without its pawn.
    pub open spec fn sound(&self) -> bool {
        &&& self.layout_ok()
        &&& self.history.wf()
        &&& self.zobrist.wf()
        &&& self@.keys.len() == self@.states.len()
        &&& self@.state().castling_rights.wf()
        &&& self@.state().en_passant_square < 64
        &&& self@.key() == position_key(
            self@.squares,
            self@.state().castling_rights.0,
            self@.state().en_passant_square,
            self@.white_to_move,
        )
    }

    /// The position that a text stands for. Fields that the text lacks get
    /// their defaults: White to move, no castling rights, no en passant
    /// square, a clock of 0.
    pub fn new(fen: &str) -> (board: Board)
        ensures
            board.sound(),
            board@ == fen_position(fen@),
    {
        let len = fen.unicode_len();
        let pieces_end = next_space(fen, len, 0);
        let mut board = Board {
            piece_bitboards: [0; 12],
            color_bitboards: [0; 2],
            white_to_move: true,
            zobrist: Zobrist::empty(),
            history: ValueHolder::new(
                BoardState {
                    capture: pieces::NONE,
                    castling_rights: CastlingRights(0),
                    en_passant_square: 0,
                    halfmove_clock: 0,
                },
            ),
        };
        let ghost layout = fen@.subrange(0, pieces_end as int);
        proof {
            assert forall|j: u8| j < 64 implies piece_on(board.piece_bitboards, j)
                == pieces::NONE by {
                lemma_bit_zero(j);
            }
            assert forall|j: u8| j < 64 implies !has_bit(0, j) by {
                lemma_bit_zero(j);
            }
            assert(board@.squares =~= placement(layout, 0).0);
        }
        let mut cursor: u8 = 0;
        let mut i: usize = 0;
        while i < pieces_end
            invariant
                i <= pieces_end <= len,
                len == fen@.len(),
                layout == fen@.subrange(0, pieces_end as int),
                cursor <= 64,
                board.layout_ok(),
                board@.squares == placement(layout, i as nat).0,
                cursor == placement(layout, i as nat).1,
                forall|j: int| cursor <= j < 64 ==> board@.squares[j] == pieces::NONE,
            decreases pieces_end - i,
        {
            let c = fen.get_char(i);
            assert(c == layout[i as int]);
            if '0' <= c && c <= '9' {
                let step: u8 = c as u8 - 48;
                cursor = if cursor + step > 64 { 64 } else { cursor + step };
            } else {
                let piece = pieces::from_char(c);
                if piece != pieces::NONE && cursor < 64 {
                    board.toggle_piece(piece, cursor);
                    cursor += 1;
                }
            }
            i += 1;
        }
        let mut white_to_move = true;
        let mut castling_rights = CastlingRights(0);
        let mut en_passant_square: u8 = 0;
        let mut halfmove_clock: u8 = 0;
        proof {
            reveal_with_fuel(field_start, 6);
            lemma_find_space(fen@, 0);
            crate::castling_rights::lemma_rights_bits(false, false, false, false);
        }
        if pieces_end < len {
            let side_start = pieces_end + 1;
            let side_end = next_space(fen, len, side_start);
            let side = fen.substring_char(side_start, side_end);
            white_to_move = side.unicode_len() == 1 && side.get_char(0) == 'w';
            proof {
                assert(field_start(fen@, 1) == side_start);
                assert(white_to_move == (side@ =~= seq!['w']));
                lemma_find_space(fen@, side_start as int);
            }
            if side_end < len {
                let rights_start = side_end + 1;
                let rights_end = next_space(fen, len, rights_start);
                castling_rights = CastlingRights::from_str(
                    fen.substring_char(rights_start, rights_end),
                );
                proof {
                    assert(field_start(fen@, 2) == rights_start);
                    lemma_find_space(fen@, rights_start as int);
                }
                if rights_end < len {
                    let square_start = rights_end + 1;
                    let square_end = next_space(fen, len, square_start);
                    en_passant_square = square_to_index(
                        fen.substring_char(square_start, square_end),
                    );
                    proof {
                        assert(field_start(fen@, 3) == square_start);
                        lemma_find_space(fen@, square_start as int);
                    }
                    if square_end < len {
                        let clock_start = square_end + 1;
                        let clock_end = next_space(fen, len, clock_start);
                        halfmove_clock = parse_small_number(
                            fen.substring_char(clock_start, clock_end),
                        );
                        proof {
                            assert(field_start(fen@, 4) == clock_start);
                        }
                    } else {
                        assert(field_start(fen@, 4) == len + 1);
                    }
                } else {
                    assert(field_start(fen@, 3) == len + 1);
                    assert(field_start(fen@, 4) == len + 1);
                }
            } else {
                assert(field_start(fen@, 2) == len + 1);
                assert(field_start(fen@, 3) == len + 1);
                assert(field_start(fen@, 4) == len + 1);
            }
        } else {
            assert(field_start(fen@, 1) == len + 1);
            assert(field_start(fen@, 2) == len + 1);
            assert(field_start(fen@, 3) == len + 1);
            assert(field_start(fen@, 4) == len + 1);
        }
        board.white_to_move = white_to_move;
        board.history = ValueHolder::new(
            BoardState {
                capture: pieces::NONE,
                castling_rights,
                en_passant_square,
                halfmove_clock,
            },
        );
        board.zobrist = Zobrist::calculate(&board);
        proof {
            assert(board@.states =~= fen_position(fen@).states);
            assert(board@.keys =~= fen_position(fen@).keys);
        }
        board
    }
}

/// The character of a digit.
pub open spec fn digit_char(digit: int) -> char {
    (48 + digit) as char
}

/// A number in decimal digits.
pub open spec fn decimal(n: nat) -> Seq<char>
    decreases n,
{
    if n < 10 {
        seq![digit_char(n as int)]
    } else {
        decimal(n / 10).push(digit_char((n % 10) as int))
    }
}

/// A text with the count of a run of empty squares written behind it, if
/// there is such a run.
pub open spec fn with_run(text: Seq<char>, run: int) -> Seq<char> {
    if run > 0 {
        text.push(digit_char(run))
    } else {
        text
    }
}

/// The text of the first `files` squares of a row, and the length of the run
/// of empty squares at their end, which is not yet written.
pub open spec fn row_scan(squares: Seq<u8>, row: int, files: nat) -> (Seq<char>, int)
    decreases files,
{
    if files == 0 {
        (Seq::empty(), 0)
    } else {
        let (text, run) = row_scan(squares, row, (files - 1) as nat);
        let piece = squares[row * 8 + files - 1];
        if piece == pieces::NONE {
            (text, run + 1)
        } else {
            (with_run(text, run).push(piece_letter(piece)), 0)
        }
    }
}

/// The text of a row: the letters of its pieces, with the length of each run
/// of empty squares between them.
pub open spec fn row_text(squares: Seq<u8>, row: int) -> Seq<char> {
    with_run(row_scan(squares, row, 8).0, row_scan(squares, row, 8).1)
}

/// The text of the first `rows` rows, with a slash after each.
pub open spec fn rows_text(squares: Seq<u8>, rows: nat) -> Seq<char>
    decreases rows,
{
    if rows == 0 {
        Seq::empty()
    } else {
        rows_text(squares, (rows - 1) as nat) + row_text(squares, rows - 1) + seq!['/']
    }
}

/// The text of an en passant square: its name, or a dash for none.
pub open spec fn en_passant_text(square: u8) -> Seq<char> {
    if square == 0 {
        seq!['-']
    } else {
        square_name(square)
    }
}

impl BoardView {
    /// The number of the move: 1 at first, and one more after each move of
    /// Black, counted by the moves made on this board.
    pub open spec fn fullmove(self) -> nat {
        ((self.states.len() + 1) / 2) as nat
    }

    /// The position as text.
    pub open spec fn fen(self) -> Seq<char> {
        rows_text(self.squares, 8).drop_last() + seq![
            ' ',
            if self.white_to_move { 'w' } else { 'b' },
            ' ',
        ]
            + self.state().castling_rights.text() + seq![' '] + en_passant_text(
            self.state().en_passant_square,
        ) + seq![' '] + decimal(self.state().halfmove_clock as nat) + seq![' '] + decimal(
            self.fullmove(),
        )
    }
}

/// The one-digit text of a digit.
fn digit_str(digit: u8) -> (text: &'static str)
    requires
        digit < 10,
    ensures
        text@ == seq![digit_char(digit as int)],
{
    proof {
        reveal_strlit("0");
        reveal_strlit("1");
        reveal_strlit("2");
        reveal_strlit("3");
        reveal_strlit("4");
        reveal_strlit("5");
        reveal_strlit("6");
        reveal_strlit("7");
        reveal_strlit("8");
        reveal_strlit("9");
    }
    let text = if digit == 0 {
        "0"
    } else if digit == 1 {
        "1"
    } else if digit == 2 {
        "2"
    } else if digit == 3 {
        "3"
    } else if digit == 4 {
        "4"
    } else if digit == 5 {
        "5"
    } else if digit == 6 {
        "6"
    } else if digit == 7 {
        "7"
    } else if digit == 8 {
        "8"
    } else {
        "9"
    };
    assert(text@ =~= seq![digit_char(digit as int)]);
    text
}

/// Appends a number in decimal digits.
fn append_decimal(text: &mut String, n: usize)
    ensures
        final(text)@ == old(text)@ + decimal(n as nat),
    decreases n,
{
    if n >= 10 {
        append_decimal(text, n / 10);
    }
    text.append(digit_str((n % 10) as u8));
    assert(text@ =~= old(text)@ + decimal(n as nat));
}

impl Board {
    /// The rows of the position as text, a slash after each.
    fn rows_to_text(&self) -> (rows: String)
        ensures
            rows@ == rows_text(self@.squares, 8),
    {
        let mut result = String::new();
        let ghost squares = self@.squares;
        let mut rank: u8 = 0;
        assert(result@ =~= rows_text(squares, 0));
        while rank < 8
            invariant
                rank <= 8,
                squares == self@.squares,
                result@ == rows_text(squares, rank as nat),
            decreases 8 - rank,
        {
            let mut empty_squares: u8 = 0;
            let mut file: u8 = 0;
            let ghost start = result@;
            assert(result@ =~= start + row_scan(squares, rank as int, 0).0);
            while file < 8
                invariant
                    file <= 8,
                    rank < 8,
                    squares == self@.squares,
                    empty_squares <= file,
                    empty_squares == row_scan(squares, rank as int, file as nat).1,
                    result@ == start + row_scan(squares, rank as int, file as nat).0,
                decreases 8 - file,
            {
                let piece = self.get(rank * 8 + file);
                if piece == pieces::NONE {
                    empty_squares += 1;
                } else {
                    if empty_squares > 0 {
                        result.append(digit_str(empty_squares));
                    }
                    result.append(pieces::to_str(piece));
                    empty_squares = 0;
                }
                file += 1;
                assert(result@ =~= start + row_scan(squares, rank as int, file as nat).0);
            }
            if empty_squares > 0 {
                result.append(digit_str(empty_squares));
            }
            proof {
                reveal_strlit("/");
            }
            result.append("/");
            rank += 1;
            assert(result@ =~= rows_text(squares, rank as nat));
        }
        result
    }

    /// The position as text.
    pub fn generate_fen(&self) -> (fen: String)
        requires
            self.history.wf(),
            self@.state().en_passant_square < 64,
        ensures
            fen@ == self@.fen(),
    {
        let rows = self.rows_to_text();
        let rows_len = rows.as_str().unicode_len();
        let ghost v = self@;
        assert(rows@.len() > 0);
        let mut result = String::from_str(rows.as_str().substring_char(0, rows_len - 1));
        let ghost part0 = rows_text(v.squares, 8).drop_last();
        assert(result@ =~= part0);
        let state = self.history.peek();
        proof {
            reveal_strlit(" w ");
            reveal_strlit(" b ");
            reveal_strlit(" ");
            reveal_strlit("-");
        }
        if self.white_to_move {
            result.append(" w ");
        } else {
            result.append(" b ");
        }
        let ghost part1 = part0 + seq![' ', if v.white_to_move { 'w' } else { 'b' }, ' '];
        assert(result@ =~= part1);
        let rights = state.castling_rights.to_str();
        result.append(rights.as_str());
        let ghost part2 = part1 + v.state().castling_rights.text();
        assert(result@ =~= part2);
        result.append(" ");
        let ghost part3 = part2 + seq![' '];
        assert(result@ =~= part3);
        if state.en_passant_square == 0 {
            result.append("-");
        } else {
            result.append(file_str(state.en_passant_square % 8));
            result.append(row_str(state.en_passant_square / 8));
        }
        let ghost part4 = part3 + en_passant_text(v.state().en_passant_square);
        assert(result@ =~= part4);
        result.append(" ");
        let ghost part5 = part4 + seq![' '];
        assert(result@ =~= part5);
        append_decimal(&mut result, state.halfmove_clock as usize);
        let ghost part6 = part5 + decimal(v.state().halfmove_clock as nat);
        assert(result@ =~= part6);
        result.append(" ");
        let ghost part7 = part6 + seq![' '];
        assert(result@ =~= part7);
        let states = self.history.len();
        let fullmove = states / 2 + states % 2;
        assert(fullmove == v.fullmove());
        append_decimal(&mut result, fullmove);
        assert(result@ == part7 + decimal(v.fullmove()));
        result
    }

    /// Whether the board is well formed: the castling rights that it claims
    /// have their rook and king at home, and its en passant square, if it has
    /// one, is empty and has the pawn that passed it behind it.
    pub fn is_valid(&self) -> (valid: bool)
        requires
            self.sound(),
        ensures
            valid == self.wf(),
    {
        let state = self.history.peek();
        let rights = state.castling_rights;
        let ghost v = self@;
        let white_kings = self.piece_bitboards[pieces::WHITE_KING as usize];
        let black_kings = self.piece_bitboards[pieces::BLACK_KING as usize];
        let white_home = square_bit(60);
        let black_home = square_bit(4);
        let white_at_home = white_kings == 0 || white_kings == white_home;
        let black_at_home = black_kings == 0 || black_kings == black_home;
        proof {
            assert forall|j: u8| j < 64 implies (#[trigger] has_bit(white_kings, j) == (
            v.squares[j as int] == pieces::WHITE_KING)) && (#[trigger] has_bit(black_kings, j) == (
            v.squares[j as int] == pieces::BLACK_KING)) by {
                assert(v.squares[j as int] == piece_on(self.piece_bitboards, j));
            }
            assert forall|j: u8| j < 64 implies !has_bit(0, j) by {
                lemma_bit_zero(j);
            }
            if forall|i: int| 0 <= i < 64 && #[trigger] v.squares[i] == pieces::WHITE_KING
                ==> i == 60 {
                if white_kings != 0 {
                    crate::utils::lemma_nonzero_has_bit(white_kings);
                    let first = white_kings.trailing_zeros() as u8;
                    assert(v.squares[first as int] == pieces::WHITE_KING);
                    assert forall|j: u8| j < 64 implies has_bit(white_kings, j) == has_bit(
                        white_home,
                        j,
                    ) by {
                        if has_bit(white_kings, j) {
                            assert(v.squares[j as int] == pieces::WHITE_KING);
                        }
                    }
                    lemma_bits_equal(white_kings, white_home);
                }
            } else {
                let i = choose|i: int|
                    0 <= i < 64 && #[trigger] v.squares[i] == pieces::WHITE_KING && i != 60;
                assert(has_bit(white_kings, i as u8));
            }
            if forall|i: int| 0 <= i < 64 && #[trigger] v.squares[i] == pieces::BLACK_KING
                ==> i == 4 {
                if black_kings != 0 {
                    crate::utils::lemma_nonzero_has_bit(black_kings);
                    let first = black_kings.trailing_zeros() as u8;
                    assert(v.squares[first as int] == pieces::BLACK_KING);
                    assert forall|j: u8| j < 64 implies has_bit(black_kings, j) == has_bit(
                        black_home,
                        j,
                    ) by {
                        if has_bit(black_kings, j) {
                            assert(v.squares[j as int] == pieces::BLACK_KING);
                        }
                    }
                    lemma_bits_equal(black_kings, black_home);
                }
            } else {
                let i = choose|i: int|
                    0 <= i < 64 && #[trigger] v.squares[i] == pieces::BLACK_KING && i != 4;
                assert(has_bit(black_kings, i as u8));
            }
        }
        if rights.kingside(true) && !(self.get(63) == pieces::WHITE_ROOK && white_at_home) {
            return false;
        }
        if rights.queenside(true) && !(self.get(56) == pieces::WHITE_ROOK && white_at_home) {
            return false;
        }
        if rights.kingside(false) && !(self.get(7) == pieces::BLACK_ROOK && black_at_home) {
            return false;
        }
        if rights.queenside(false) && !(self.get(0) == pieces::BLACK_ROOK && black_at_home) {
            return false;
        }
        let square = state.en_passant_square;
        if square != 0 {
            let in_range = if self.white_to_move { square < 56 } else { square >= 8 };
            if !in_range {
                return false;
            }
            let victim: u8 = if self.white_to_move { square + 8 } else { square - 8 };
            let pawn = pieces::build_piece(!self.white_to_move, pieces::PAWN);
            if self.get(square) != pieces::NONE || self.get(victim) != pawn {
                return false;
            }
        }
        true
    }
}

impl Board {
    /// The square of the king of a colour, if the colour has exactly one.
    pub fn sole_king(&self, white: bool) -> (square: Option<u8>)
        requires
            self.layout_ok(),
        ensures
            match square {
                Some(square) => self@.only_king_on(white, square),
                None => !self@.one_king(white),
            },
    {
        let king = pieces::build_piece(white, pieces::KING);
        let kings = self.piece_bitboards[king as usize];
        let ghost v = self@;
        proof {
            assert forall|j: u8| j < 64 implies #[trigger] has_bit(kings, j) == (v.squares[j as int]
                == king) by {
                assert(v.squares[j as int] == piece_on(self.piece_bitboards, j));
            }
            assert forall|j: u8| j < 64 implies !has_bit(0, j) by {
                lemma_bit_zero(j);
            }
        }
        if kings == 0 {
            proof {
                assert forall|square: u8| !#[trigger] v.only_king_on(white, square) by {
                    if square < 64 {
                        assert(!has_bit(kings, square));
                    }
                }
            }
            return None;
        }
        let mut rest = kings;
        let first = crate::utils::pop_lsb(&mut rest);
        if rest != 0 {
            proof {
                crate::utils::lemma_nonzero_has_bit(rest);
                let second = rest.trailing_zeros() as u8;
                assert(has_bit(kings, second) && second != first);
                assert forall|square: u8| !#[trigger] v.only_king_on(white, square) by {
                    if v.only_king_on(white, square) {
                        assert(v.squares[first as int] == king);
                        assert(v.squares[second as int] == king);
                    }
                }
            }
            return None;
        }
        proof {
            assert forall|other: u8|
                other < 64 && #[trigger] v.squares[other as int] == king implies other
                == first by {
                assert(has_bit(kings, other));
                assert(!has_bit(rest, other));
            }
        }
        Some(first)
    }

    /// Whether the position can occur in a game: the board is well formed,
    /// each side has exactly one king, and the side that is not to move is
    /// not in check.
    pub fn is_playable(&self) -> (playable: bool)
        requires
            self.sound(),
        ensures
            playable == self@.playable(),
            playable ==> self.wf(),
    {
        if !self.is_valid() {
            return false;
        }
        let ghost v = self@;
        let own = self.sole_king(self.white_to_move);
        let other = self.sole_king(!self.white_to_move);
        match (own, other) {
            (Some(_), Some(square)) => {
                let attackers = self.get_attackers_by(square, self.white_to_move);
                proof {
                    let black = !self.white_to_move;
                    assert(crate::position::is_king_square(v.squares, black, square));
                    assert(v.squares[square as int] == pieces::piece_code(black, pieces::KING));
                    assert(crate::position::has_king(v.squares, black));
                    assert forall|any: u8|
                        crate::position::is_king_square(v.squares, black, any) implies any
                        == square by {}
                }
                attackers == 0
            },
            _ => false,
        }
    }
}

} // verus!
