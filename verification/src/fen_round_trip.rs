//! A position written as text and read again is the same position.

use vstd::prelude::*;
use crate::castling_rights::{lemma_rights_bits, lemma_rights_equal, CastlingRights};
use crate::constants::{lemma_square_name_round_trip, name_index};
use crate::fen::{
    decimal,
    digit_char,
    digit_value,
    en_passant_text,
    fen_position,
    fen_state,
    fen_white_to_move,
    field,
    field_start,
    find_space,
    is_digit,
    number_upto,
    placement,
    row_scan,
    row_text,
    rows_text,
    small_number,
    with_run,
};
use crate::pieces;
use crate::pieces::{lemma_letter_round_trip, piece_letter};
use crate::position::{BoardState, BoardView};
use crate::zobrist::position_key;

verus! {

/// Whether a text holds no space.
pub open spec fn spaceless(text: Seq<char>) -> bool {
    forall|i: int| 0 <= i < text.len() ==> text[i] != ' '
}

/// The first space after a stretch without spaces is at its end.
proof fn lemma_find_space_at(text: Seq<char>, from: int, end: int)
    requires
        0 <= from <= end <= text.len(),
        forall|i: int| from <= i < end ==> text[i] != ' ',
        end == text.len() || text[end] == ' ',
    ensures
        find_space(text, from) == end,
    decreases end - from,
{
    if from < end {
        lemma_find_space_at(text, from + 1, end);
    }
}

/// What the first characters of a text place depends on those characters
/// only.
proof fn lemma_placement_prefix(a: Seq<char>, b: Seq<char>, n: nat)
    requires
        n <= a.len(),
        n <= b.len(),
        forall|i: int| 0 <= i < n ==> a[i] == b[i],
    ensures
        placement(a, n) == placement(b, n),
    decreases n,
{
    if n > 0 {
        lemma_placement_prefix(a, b, (n - 1) as nat);
    }
}

/// Whether reading a text has placed the pieces of the squares below
/// `cursor`, left the others empty and put the cursor there, while the squares
/// from `cursor` to `upto` are empty.
spec fn read_upto(text: Seq<char>, squares: Seq<u8>, cursor: int, upto: int) -> bool {
    let (placed, at) = placement(text, text.len());
    &&& at == cursor
    &&& 0 <= cursor <= upto <= 64
    &&& placed.len() == 64
    &&& forall|j: int| 0 <= j < cursor ==> placed[j] == squares[j]
    &&& forall|j: int| cursor <= j < 64 ==> placed[j] == pieces::NONE
    &&& forall|j: int| cursor <= j < upto ==> squares[j] == pieces::NONE
}

/// Reading the digit of a run of empty squares moves the cursor over them.
proof fn lemma_read_run(text: Seq<char>, squares: Seq<u8>, cursor: int, upto: int)
    requires
        read_upto(text, squares, cursor, upto),
        upto - cursor <= 8,
    ensures
        read_upto(with_run(text, upto - cursor), squares, upto, upto),
{
    let run = upto - cursor;
    if run > 0 {
        let longer = text.push(digit_char(run));
        lemma_placement_prefix(text, longer, text.len());
        assert(longer[text.len() as int] == digit_char(run));
        assert(is_digit(digit_char(run)));
        assert(digit_value(digit_char(run)) == run);
    }
}

/// Reading the letter of a piece places the piece on the cursor's square.
proof fn lemma_read_piece(text: Seq<char>, squares: Seq<u8>, cursor: int)
    requires
        read_upto(text, squares, cursor, cursor),
        cursor < 64,
        squares[cursor] < 12,
    ensures
        read_upto(text.push(piece_letter(squares[cursor])), squares, cursor + 1, cursor + 1),
{
    let piece = squares[cursor];
    let longer = text.push(piece_letter(piece));
    lemma_placement_prefix(text, longer, text.len());
    lemma_letter_round_trip(piece);
    assert(longer[text.len() as int] == piece_letter(piece));
    assert(!is_digit(piece_letter(piece)));
    let (placed, at) = placement(longer, longer.len());
    assert(placed == placement(text, text.len()).0.update(cursor, piece));
}

/// Reading a slash changes nothing.
proof fn lemma_read_slash(text: Seq<char>, squares: Seq<u8>, cursor: int)
    requires
        read_upto(text, squares, cursor, cursor),
    ensures
        read_upto(text.push('/'), squares, cursor, cursor),
{
    let longer = text.push('/');
    lemma_placement_prefix(text, longer, text.len());
    assert(longer[text.len() as int] == '/');
}

/// The text of the rows up to some square of a row, read, has placed the
/// pieces up to the run of empty squares that is not yet written.
proof fn lemma_read_rows(squares: Seq<u8>, row: nat, files: nat)
    requires
        squares.len() == 64,
        forall|i: int| 0 <= i < 64 ==> #[trigger] squares[i] <= pieces::NONE,
        row < 8,
        files <= 8,
    ensures
        0 <= row_scan(squares, row as int, files).1 <= files,
        read_upto(
            rows_text(squares, row) + row_scan(squares, row as int, files).0,
            squares,
            row * 8 + files - row_scan(squares, row as int, files).1,
            (row * 8 + files) as int,
        ),
        spaceless(rows_text(squares, row) + row_scan(squares, row as int, files).0),
    decreases row, files,
{
    let before = rows_text(squares, row);
    if files == 0 {
        if row == 0 {
            assert(before + row_scan(squares, 0, 0).0 =~= Seq::<char>::empty());
        } else {
            let above = (row - 1) as nat;
            lemma_read_rows(squares, above, 8);
            let scanned = row_scan(squares, above as int, 8);
            let head = rows_text(squares, above) + scanned.0;
            lemma_read_run(head, squares, above * 8 + 8 - scanned.1, (above * 8 + 8) as int);
            let with_count = with_run(head, scanned.1);
            lemma_read_slash(with_count, squares, (row * 8) as int);
            assert(before + row_scan(squares, row as int, 0).0 =~= with_count.push('/'));
            assert(with_count =~= rows_text(squares, above) + row_text(squares, above as int));
        }
    } else {
        let earlier = (files - 1) as nat;
        lemma_read_rows(squares, row, earlier);
        let scanned = row_scan(squares, row as int, earlier);
        let head = before + scanned.0;
        let square = row * 8 + files - 1;
        let piece = squares[square];
        if piece != pieces::NONE {
            lemma_read_run(head, squares, square - scanned.1, square);
            let with_count = with_run(head, scanned.1);
            lemma_read_piece(with_count, squares, square);
            assert(before + row_scan(squares, row as int, files).0 =~= with_count.push(
                piece_letter(piece),
            ));
        }
    }
}

/// The text of the rows, read, gives the squares back.
proof fn lemma_rows_round_trip(squares: Seq<u8>)
    requires
        squares.len() == 64,
        forall|i: int| 0 <= i < 64 ==> #[trigger] squares[i] <= pieces::NONE,
    ensures
        rows_text(squares, 8).len() > 0,
        spaceless(rows_text(squares, 8).drop_last()),
        placement(rows_text(squares, 8).drop_last(), (rows_text(squares, 8).len() - 1) as nat).0
            == squares,
{
    lemma_read_rows(squares, 7, 8);
    let scanned = row_scan(squares, 7, 8);
    let head = rows_text(squares, 7) + scanned.0;
    lemma_read_run(head, squares, 64 - scanned.1, 64);
    let with_count = with_run(head, scanned.1);
    let all = rows_text(squares, 8);
    assert(all =~= with_count.push('/'));
    assert(all.drop_last() =~= with_count);
    let placed = placement(with_count, with_count.len()).0;
    assert(placed =~= squares);
}

/// The digits of a number are digits, and stand for the number.
proof fn lemma_decimal(n: nat)
    ensures
        decimal(n).len() >= 1,
        spaceless(decimal(n)),
        forall|i: int| 0 <= i < decimal(n).len() ==> is_digit(#[trigger] decimal(n)[i]),
        n <= 255 ==> number_upto(decimal(n), decimal(n).len()) == Some(n as u8),
    decreases n,
{
    if n >= 10 {
        lemma_decimal(n / 10);
        let head = decimal(n / 10);
        let all = decimal(n);
        assert(all == head.push(digit_char((n % 10) as int)));
        if n <= 255 {
            lemma_number_prefix(head, all, head.len());
            assert(digit_value(all[all.len() - 1]) == n % 10);
        }
    } else {
        reveal_with_fuel(number_upto, 2);
    }
}

/// The number that the first characters of a text stand for depends on those
/// characters only.
proof fn lemma_number_prefix(a: Seq<char>, b: Seq<char>, n: nat)
    requires
        n <= a.len(),
        n <= b.len(),
        forall|i: int| 0 <= i < n ==> a[i] == b[i],
    ensures
        number_upto(a, n) == number_upto(b, n),
    decreases n,
{
    if n > 0 {
        lemma_number_prefix(a, b, (n - 1) as nat);
    }
}

/// The text of a set of rights holds no space, and holds the letter of a
/// right exactly when the right is held.
proof fn lemma_rights_text(rights: CastlingRights)
    ensures
        spaceless(rights.text()),
        rights.text().contains('K') == rights.white_kingside(),
        rights.text().contains('Q') == rights.white_queenside(),
        rights.text().contains('k') == rights.black_kingside(),
        rights.text().contains('q') == rights.black_queenside(),
{
    let text = rights.text();
    let a = if rights.white_kingside() { seq!['K'] } else { Seq::<char>::empty() };
    let b = if rights.white_queenside() { seq!['Q'] } else { Seq::<char>::empty() };
    let c = if rights.black_kingside() { seq!['k'] } else { Seq::<char>::empty() };
    let d = if rights.black_queenside() { seq!['q'] } else { Seq::<char>::empty() };
    if !rights.white_kingside() && !rights.white_queenside() && !rights.black_kingside()
        && !rights.black_queenside() {
        assert(text =~= seq!['-']);
    } else {
        assert(text =~= a + b + c + d);
        if rights.white_kingside() {
            assert(text[0] == 'K');
        }
        if rights.white_queenside() {
            assert(text[a.len() as int] == 'Q');
        }
        if rights.black_kingside() {
            assert(text[(a.len() + b.len()) as int] == 'k');
        }
        if rights.black_queenside() {
            assert(text[(a.len() + b.len() + c.len()) as int] == 'q');
        }
    }
}

/// What a position text must give back when it is read: the squares, the side
/// to move and the state of the position that was written, alone on its
/// stack and without the piece that the last move took.
pub open spec fn as_read(v: BoardView) -> BoardView {
    let state = BoardState {
        capture: pieces::NONE,
        castling_rights: v.state().castling_rights,
        en_passant_square: v.state().en_passant_square,
        halfmove_clock: v.state().halfmove_clock,
    };
    BoardView {
        squares: v.squares,
        white_to_move: v.white_to_move,
        states: seq![state],
        keys: seq![
            position_key(
                v.squares,
                state.castling_rights.0,
                state.en_passant_square,
                v.white_to_move,
            ),
        ],
    }
}

/// Whether a position can be written as text and read again: it has 64
/// squares with piece codes on them, castling rights of four bits, and an en
/// passant square that is a square.
pub open spec fn writable(v: BoardView) -> bool {
    &&& v.squares.len() == 64
    &&& forall|i: int| 0 <= i < 64 ==> #[trigger] v.squares[i] <= pieces::NONE
    &&& v.states.len() >= 1
    &&& v.state().castling_rights.wf()
    &&& v.state().en_passant_square < 64
}

/// A stretch without spaces that starts where a field starts, and ends at a
/// space or at the end of the text, is that field; the next field starts
/// behind the space.
proof fn lemma_field_is(text: Seq<char>, k: nat, start: int, part: Seq<char>)
    requires
        field_start(text, k) == start,
        0 <= start,
        start + part.len() <= text.len(),
        text.subrange(start, start + part.len()) == part,
        spaceless(part),
        start + part.len() == text.len() || text[start + part.len()] == ' ',
    ensures
        field(text, k) == Some(part),
        start + part.len() < text.len() ==> field_start(text, k + 1) == start + part.len() + 1,
{
    assert forall|i: int| start <= i < start + part.len() implies text[i] != ' ' by {
        assert(text[i] == part[i - start]);
    }
    lemma_find_space_at(text, start, start + part.len());
}

/// The first five fields of a text made of six parts with a space between
/// each two are the first five parts, if these hold no space.
proof fn lemma_fields_of_parts(
    a: Seq<char>,
    b: Seq<char>,
    c: Seq<char>,
    d: Seq<char>,
    e: Seq<char>,
    f: Seq<char>,
)
    requires
        spaceless(a),
        spaceless(b),
        spaceless(c),
        spaceless(d),
        spaceless(e),
    ensures
        ({
            let text = a + seq![' '] + b + seq![' '] + c + seq![' '] + d + seq![' '] + e + seq![' ']
                + f;
            &&& field(text, 0) == Some(a)
            &&& field(text, 1) == Some(b)
            &&& field(text, 2) == Some(c)
            &&& field(text, 3) == Some(d)
            &&& field(text, 4) == Some(e)
        }),
{
    let blank = seq![' '];
    let t1 = a + blank;
    let t2 = t1 + b + blank;
    let t3 = t2 + c + blank;
    let t4 = t3 + d + blank;
    let text = a + blank + b + blank + c + blank + d + blank + e + blank + f;
    assert(text =~= t4 + e + blank + f);
    assert(t4 =~= t3 + d + blank);
    let s1 = t1.len() as int;
    let s2 = t2.len() as int;
    let s3 = t3.len() as int;
    let s4 = t4.len() as int;
    assert(text.subrange(0, a.len() as int) =~= a);
    assert(text[a.len() as int] == ' ');
    lemma_field_is(text, 0, 0, a);
    assert(text.subrange(s1, s1 + b.len()) =~= b);
    assert(text[s1 + b.len()] == ' ');
    lemma_field_is(text, 1, s1, b);
    assert(text.subrange(s2, s2 + c.len()) =~= c);
    assert(text[s2 + c.len()] == ' ');
    lemma_field_is(text, 2, s2, c);
    assert(text.subrange(s3, s3 + d.len()) =~= d);
    assert(text[s3 + d.len()] == ' ');
    lemma_field_is(text, 3, s3, d);
    assert(text.subrange(s4, s4 + e.len()) =~= e);
    assert(text[s4 + e.len()] == ' ');
    lemma_field_is(text, 4, s4, e);
}

/// The text of a position, read, gives the position back: the pieces on
/// their squares, the side to move, the castling rights, the en passant
/// square and the clock. Only the number of the move is not read.
pub proof fn lemma_fen_round_trip(v: BoardView)
    requires
        writable(v),
    ensures
        fen_position(v.fen()) == as_read(v),
{
    let rows = rows_text(v.squares, 8).drop_last();
    let side = seq![if v.white_to_move { 'w' } else { 'b' }];
    let rights = v.state().castling_rights.text();
    let square = en_passant_text(v.state().en_passant_square);
    let clock = decimal(v.state().halfmove_clock as nat);
    let number = decimal(v.fullmove());
    let blank = seq![' '];
    let text = v.fen();
    lemma_rows_round_trip(v.squares);
    lemma_rights_text(v.state().castling_rights);
    lemma_decimal(v.state().halfmove_clock as nat);
    lemma_square_name_round_trip(v.state().en_passant_square);
    assert(text =~= rows + blank + side + blank + rights + blank + square + blank + clock + blank
        + number);
    assert(spaceless(square));
    assert(spaceless(side));
    lemma_fields_of_parts(rows, side, rights, square, clock, number);
    lemma_fen_fields(v, text, rows, side, rights, square, clock);
}

/// What the fields of a position's text stand for.
proof fn lemma_fen_fields(
    v: BoardView,
    text: Seq<char>,
    rows: Seq<char>,
    side: Seq<char>,
    rights: Seq<char>,
    square: Seq<char>,
    clock: Seq<char>,
)
    requires
        writable(v),
        field(text, 0) == Some(rows),
        field(text, 1) == Some(side),
        field(text, 2) == Some(rights),
        field(text, 3) == Some(square),
        field(text, 4) == Some(clock),
        rows == rows_text(v.squares, 8).drop_last(),
        side == seq![if v.white_to_move { 'w' } else { 'b' }],
        rights == v.state().castling_rights.text(),
        square == en_passant_text(v.state().en_passant_square),
        clock == decimal(v.state().halfmove_clock as nat),
    ensures
        fen_position(text) == as_read(v),
{
    lemma_rows_round_trip(v.squares);
    lemma_rights_text(v.state().castling_rights);
    lemma_decimal(v.state().halfmove_clock as nat);
    lemma_square_name_round_trip(v.state().en_passant_square);
    let read_rights = fen_state(text).castling_rights;
    lemma_rights_bits(
        rights.contains('K'),
        rights.contains('Q'),
        rights.contains('k'),
        rights.contains('q'),
    );
    lemma_rights_equal(read_rights, v.state().castling_rights);
    assert(fen_white_to_move(text) == v.white_to_move) by {
        if !v.white_to_move {
            assert(side[0] != 'w');
        }
    }
    assert(small_number(clock) == v.state().halfmove_clock);
    assert(name_index(square) == v.state().en_passant_square);
    assert(fen_state(text) == as_read(v).state());
    assert(fen_position(text).squares == v.squares);
}

/// A position text that is read and written again may look different, but it
/// reads as the same position: the position of the written text is the
/// position of the text that was read.
pub proof fn lemma_fen_equivalent(text: Seq<char>)
    ensures
        fen_position(fen_position(text).fen()) == fen_position(text),
{
    let v = fen_position(text);
    let layout = field(text, 0)->Some_0;
    lemma_placement_wf(layout, layout.len());
    match field(text, 2) {
        Some(named) => {
            lemma_rights_bits(
                named.contains('K'),
                named.contains('Q'),
                named.contains('k'),
                named.contains('q'),
            );
        },
        None => {},
    }
    lemma_fen_round_trip(v);
    assert(as_read(v).states =~= v.states);
    assert(as_read(v).keys =~= v.keys);
}

/// Reading places piece codes on 64 squares.
proof fn lemma_placement_wf(text: Seq<char>, n: nat)
    ensures
        placement(text, n).0.len() == 64,
        0 <= placement(text, n).1 <= 64,
        forall|i: int| 0 <= i < 64 ==> #[trigger] placement(text, n).0[i] <= pieces::NONE,
    decreases n,
{
    if n > 0 {
        lemma_placement_wf(text, (n - 1) as nat);
    }
}

} // verus!
