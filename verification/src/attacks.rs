//! Which squares a piece attacks from a square.
//!
//! Pawns, knights and kings attack fixed squares around them. Bishops and
//! rooks attack along rays: each ray runs from the piece to the edge of the
//! board and ends on the first occupied square, which it includes.

use vstd::prelude::*;
use crate::constants::{file_of, row_of};
use crate::utils::{has_bit, lemma_bit_or, lemma_bit_zero, square_bit, test_bit};

verus! {

/// Whether a column and a row are those of a square.
pub open spec fn on_board(file: int, row: int) -> bool {
    0 <= file < 8 && 0 <= row < 8
}

/// The square in a column and a row.
pub open spec fn square_at(file: int, row: int) -> u8 {
    (row * 8 + file) as u8
}

/// Whether `to` is a knight's jump away from `from`.
pub open spec fn knight_jump(from: u8, to: u8) -> bool {
    let df = file_of(to) - file_of(from);
    let dr = row_of(to) - row_of(from);
    ((df == 1 || df == -1) && (dr == 2 || dr == -2)) || ((df == 2 || df == -2) && (dr == 1 || dr
        == -1))
}

/// Whether `to` is next to `from`, in a line or diagonally.
pub open spec fn king_step(from: u8, to: u8) -> bool {
    let df = file_of(to) - file_of(from);
    let dr = row_of(to) - row_of(from);
    from != to && -1 <= df <= 1 && -1 <= dr <= 1
}

/// Whether a pawn of the given colour on `from` attacks `to`: one row ahead
/// of it and one column to either side. White pawns move towards row 0.
pub open spec fn pawn_attack(from: u8, white: bool, to: u8) -> bool {
    let df = file_of(to) - file_of(from);
    let dr = row_of(to) - row_of(from);
    (df == 1 || df == -1) && dr == if white { -1int } else { 1int }
}

/// Whether a ray reaches `target`. The ray starts next to the square in the
/// given column and row, runs in steps of `(df, dr)` for at most `steps`
/// squares, and ends at the edge of the board or on the first square of
/// `occupied`, which it still reaches.
pub open spec fn ray_reaches(
    file: int,
    row: int,
    df: int,
    dr: int,
    occupied: u64,
    steps: nat,
    target: u8,
) -> bool
    decreases steps,
{
    if steps == 0 || !on_board(file + df, row + dr) {
        false
    } else {
        let next = square_at(file + df, row + dr);
        target == next || (!has_bit(occupied, next) && ray_reaches(
            file + df,
            row + dr,
            df,
            dr,
            occupied,
            (steps - 1) as nat,
            target,
        ))
    }
}

/// Whether a rook on `from` attacks `target` on a board with the given
/// occupied squares.
pub open spec fn rook_reaches(from: u8, occupied: u64, target: u8) -> bool {
    let f = file_of(from);
    let r = row_of(from);
    ray_reaches(f, r, 0, -1, occupied, 7, target) || ray_reaches(f, r, 1, 0, occupied, 7, target)
        || ray_reaches(f, r, 0, 1, occupied, 7, target) || ray_reaches(
        f,
        r,
        -1,
        0,
        occupied,
        7,
        target,
    )
}

/// Whether a bishop on `from` attacks `target` on a board with the given
/// occupied squares.
pub open spec fn bishop_reaches(from: u8, occupied: u64, target: u8) -> bool {
    let f = file_of(from);
    let r = row_of(from);
    ray_reaches(f, r, 1, -1, occupied, 7, target) || ray_reaches(f, r, 1, 1, occupied, 7, target)
        || ray_reaches(f, r, -1, 1, occupied, 7, target) || ray_reaches(
        f,
        r,
        -1,
        -1,
        occupied,
        7,
        target,
    )
}

/// A square is the square in its own column and row.
pub proof fn lemma_square_at(square: u8)
    requires
        square < 64,
    ensures
        on_board(file_of(square), row_of(square)),
        square_at(file_of(square), row_of(square)) == square,
{
}

/// The square in a column and a row lies in that column and that row.
pub proof fn lemma_file_row(file: int, row: int)
    requires
        on_board(file, row),
    ensures
        square_at(file, row) < 64,
        file_of(square_at(file, row)) == file,
        row_of(square_at(file, row)) == row,
{
}

/// Adds the square in a column and a row to a board, if there is one.
fn with_square(bb: u64, file: i8, row: i8) -> (out: u64)
    ensures
        forall|j: u8|
            j < 64 ==> #[trigger] has_bit(out, j) == (has_bit(bb, j) || (file_of(j) == file
                && row_of(j) == row)),
{
    if 0 <= file && file < 8 && 0 <= row && row < 8 {
        let square: u8 = (row * 8 + file) as u8;
        let mask = square_bit(square);
        proof {
            assert forall|j: u8| j < 64 implies #[trigger] has_bit(bb | mask, j) == (has_bit(bb, j)
                || (file_of(j) == file && row_of(j) == row)) by {
                lemma_bit_or(bb, mask, j);
            }
        }
        bb | mask
    } else {
        bb
    }
}

/// The squares that a knight on `square` attacks.
pub fn knight_attacks(square: u8) -> (bb: u64)
    requires
        square < 64,
    ensures
        forall|j: u8| j < 64 ==> #[trigger] has_bit(bb, j) == knight_jump(square, j),
{
    let f: i8 = (square % 8) as i8;
    let r: i8 = (square / 8) as i8;
    let mut bb: u64 = 0;
    bb = with_square(bb, f + 1, r + 2);
    bb = with_square(bb, f + 1, r - 2);
    bb = with_square(bb, f - 1, r + 2);
    bb = with_square(bb, f - 1, r - 2);
    bb = with_square(bb, f + 2, r + 1);
    bb = with_square(bb, f + 2, r - 1);
    bb = with_square(bb, f - 2, r + 1);
    bb = with_square(bb, f - 2, r - 1);
    proof {
        assert forall|j: u8| j < 64 implies #[trigger] has_bit(bb, j) == knight_jump(square, j) by {
            lemma_bit_zero(j);
        }
    }
    bb
}

/// The squares that a king on `square` attacks.
pub fn king_attacks(square: u8) -> (bb: u64)
    requires
        square < 64,
    ensures
        forall|j: u8| j < 64 ==> #[trigger] has_bit(bb, j) == king_step(square, j),
{
    let f: i8 = (square % 8) as i8;
    let r: i8 = (square / 8) as i8;
    let mut bb: u64 = 0;
    bb = with_square(bb, f + 1, r + 1);
    bb = with_square(bb, f + 1, r);
    bb = with_square(bb, f + 1, r - 1);
    bb = with_square(bb, f, r + 1);
    bb = with_square(bb, f, r - 1);
    bb = with_square(bb, f - 1, r + 1);
    bb = with_square(bb, f - 1, r);
    bb = with_square(bb, f - 1, r - 1);
    proof {
        assert forall|j: u8| j < 64 implies #[trigger] has_bit(bb, j) == king_step(square, j) by {
            lemma_bit_zero(j);
        }
    }
    bb
}

/// The squares that a pawn of the given colour on `square` attacks.
pub fn pawn_attacks(square: u8, white: bool) -> (bb: u64)
    requires
        square < 64,
    ensures
        forall|j: u8| j < 64 ==> #[trigger] has_bit(bb, j) == pawn_attack(square, white, j),
{
    let f: i8 = (square % 8) as i8;
    let r: i8 = (square / 8) as i8;
    let ahead: i8 = if white { r - 1 } else { r + 1 };
    let mut bb: u64 = 0;
    bb = with_square(bb, f - 1, ahead);
    bb = with_square(bb, f + 1, ahead);
    proof {
        assert forall|j: u8| j < 64 implies #[trigger] has_bit(bb, j) == pawn_attack(
            square,
            white,
            j,
        ) by {
            lemma_bit_zero(j);
        }
    }
    bb
}

/// The squares that one ray from `square` reaches.
fn ray_attacks(square: u8, df: i8, dr: i8, occupied: u64) -> (bb: u64)
    requires
        square < 64,
        -1 <= df <= 1,
        -1 <= dr <= 1,
    ensures
        forall|j: u8|
            j < 64 ==> #[trigger] has_bit(bb, j) == ray_reaches(
                file_of(square),
                row_of(square),
                df as int,
                dr as int,
                occupied,
                7,
                j,
            ),
{
    let mut f: i8 = (square % 8) as i8;
    let mut r: i8 = (square / 8) as i8;
    let mut bb: u64 = 0;
    let mut left: u8 = 7;
    proof {
        assert forall|j: u8| j < 64 implies !has_bit(0, j) by {
            lemma_bit_zero(j);
        }
    }
    while left > 0
        invariant
            on_board(f as int, r as int),
            left <= 7,
            -1 <= df <= 1,
            -1 <= dr <= 1,
            forall|j: u8|
                j < 64 ==> ray_reaches(
                    file_of(square),
                    row_of(square),
                    df as int,
                    dr as int,
                    occupied,
                    7,
                    j,
                ) == (#[trigger] has_bit(bb, j) || ray_reaches(
                    f as int,
                    r as int,
                    df as int,
                    dr as int,
                    occupied,
                    left as nat,
                    j,
                )),
        decreases left,
    {
        let nf: i8 = f + df;
        let nr: i8 = r + dr;
        proof {
            assert forall|j: u8| j < 64 implies #[trigger] ray_reaches(
                f as int,
                r as int,
                df as int,
                dr as int,
                occupied,
                left as nat,
                j,
            ) == (on_board(nf as int, nr as int) && (j == square_at(nf as int, nr as int) || (
            !has_bit(occupied, square_at(nf as int, nr as int)) && ray_reaches(
                nf as int,
                nr as int,
                df as int,
                dr as int,
                occupied,
                (left - 1) as nat,
                j,
            )))) by {}
        }
        if !(0 <= nf && nf < 8 && 0 <= nr && nr < 8) {
            return bb;
        }
        let next: u8 = (nr * 8 + nf) as u8;
        let mask = square_bit(next);
        let ghost before = bb;
        bb = bb | mask;
        let blocked = test_bit(occupied, next);
        proof {
            assert(next == square_at(nf as int, nr as int));
            assert forall|j: u8| j < 64 implies ray_reaches(
                file_of(square),
                row_of(square),
                df as int,
                dr as int,
                occupied,
                7,
                j,
            ) == (#[trigger] has_bit(bb, j) || (!blocked && ray_reaches(
                nf as int,
                nr as int,
                df as int,
                dr as int,
                occupied,
                (left - 1) as nat,
                j,
            ))) by {
                lemma_bit_or(before, mask, j);
                assert(has_bit(bb, j) == (has_bit(before, j) || j == next));
                assert(ray_reaches(
                    f as int,
                    r as int,
                    df as int,
                    dr as int,
                    occupied,
                    left as nat,
                    j,
                ) == (j == next || (!blocked && ray_reaches(
                    nf as int,
                    nr as int,
                    df as int,
                    dr as int,
                    occupied,
                    (left - 1) as nat,
                    j,
                ))));
            }
        }
        if blocked {
            return bb;
        }
        f = nf;
        r = nr;
        left -= 1;
    }
    bb
}

/// The squares that a rook on `square` attacks when the squares of `occupied`
/// are taken.
pub fn get_rook_moves(square: u8, occupied: u64) -> (bb: u64)
    requires
        square < 64,
    ensures
        forall|j: u8| j < 64 ==> #[trigger] has_bit(bb, j) == rook_reaches(square, occupied, j),
{
    let north = ray_attacks(square, 0, -1, occupied);
    let east = ray_attacks(square, 1, 0, occupied);
    let south = ray_attacks(square, 0, 1, occupied);
    let west = ray_attacks(square, -1, 0, occupied);
    proof {
        assert forall|j: u8| j < 64 implies #[trigger] has_bit(north | east | south | west, j)
            == rook_reaches(square, occupied, j) by {
            lemma_bit_or(north, east, j);
            lemma_bit_or(north | east, south, j);
            lemma_bit_or(north | east | south, west, j);
        }
    }
    north | east | south | west
}

/// The squares that a bishop on `square` attacks when the squares of
/// `occupied` are taken.
pub fn get_bishop_moves(square: u8, occupied: u64) -> (bb: u64)
    requires
        square < 64,
    ensures
        forall|j: u8| j < 64 ==> #[trigger] has_bit(bb, j) == bishop_reaches(square, occupied, j),
{
    let north_east = ray_attacks(square, 1, -1, occupied);
    let south_east = ray_attacks(square, 1, 1, occupied);
    let south_west = ray_attacks(square, -1, 1, occupied);
    let north_west = ray_attacks(square, -1, -1, occupied);
    proof {
        assert forall|j: u8| j < 64 implies #[trigger] has_bit(
            north_east | south_east | south_west | north_west,
            j,
        ) == bishop_reaches(square, occupied, j) by {
            lemma_bit_or(north_east, south_east, j);
            lemma_bit_or(north_east | south_east, south_west, j);
            lemma_bit_or(north_east | south_east | south_west, north_west, j);
        }
    }
    north_east | south_east | south_west | north_west
}

/// Whether the square `j` steps along a ray is on the board and empty.
pub open spec fn ray_free_at(file: int, row: int, df: int, dr: int, occupied: u64, j: int) -> bool {
    on_board(file + j * df, row + j * dr) && !has_bit(
        occupied,
        square_at(file + j * df, row + j * dr),
    )
}

/// Whether the first `k - 1` squares of a ray are on the board and empty.
pub open spec fn ray_clear(file: int, row: int, df: int, dr: int, occupied: u64, k: int) -> bool {
    forall|j: int| 1 <= j < k ==> #[trigger] ray_free_at(file, row, df, dr, occupied, j)
}

/// Whether `target` is the square `k` steps along a ray and the squares
/// before it are empty.
pub open spec fn ray_hits_at(
    file: int,
    row: int,
    df: int,
    dr: int,
    occupied: u64,
    target: u8,
    k: int,
) -> bool {
    &&& on_board(file + k * df, row + k * dr)
    &&& target == square_at(file + k * df, row + k * dr)
    &&& ray_clear(file, row, df, dr, occupied, k)
}

/// One step and then `j` steps are `j + 1` steps.
proof fn lemma_shift(start: int, d: int, j: int)
    ensures
        start + d + j * d == start + (j + 1) * d,
        start + 1 * d == start + d,
{
    assert((j + 1) * d == j * d + d) by (nonlinear_arith);
}

/// A ray reaches a square when the square lies some steps along the ray and
/// the squares before it are empty.
pub proof fn lemma_ray_reaches(
    file: int,
    row: int,
    df: int,
    dr: int,
    occupied: u64,
    steps: nat,
    target: u8,
)
    requires
        on_board(file, row),
    ensures
        ray_reaches(file, row, df, dr, occupied, steps, target) <==> exists|k: int|
            1 <= k <= steps && #[trigger] ray_hits_at(file, row, df, dr, occupied, target, k),
    decreases steps,
{
    let next_file = file + df;
    let next_row = row + dr;
    lemma_shift(file, df, 0);
    lemma_shift(row, dr, 0);
    if steps > 0 && on_board(next_file, next_row) {
        let next = square_at(next_file, next_row);
        lemma_ray_reaches(next_file, next_row, df, dr, occupied, (steps - 1) as nat, target);
        if ray_reaches(file, row, df, dr, occupied, steps, target) {
            if target == next {
                assert(ray_hits_at(file, row, df, dr, occupied, target, 1));
            } else {
                let k = choose|k: int|
                    1 <= k <= steps - 1 && #[trigger] ray_hits_at(
                        next_file,
                        next_row,
                        df,
                        dr,
                        occupied,
                        target,
                        k,
                    );
                assert forall|j: int| 1 <= j < k + 1 implies #[trigger] ray_free_at(
                    file,
                    row,
                    df,
                    dr,
                    occupied,
                    j,
                ) by {
                    if j > 1 {
                        lemma_shift(file, df, j - 1);
                        lemma_shift(row, dr, j - 1);
                        assert(ray_free_at(next_file, next_row, df, dr, occupied, j - 1));
                    }
                }
                lemma_shift(file, df, k);
                lemma_shift(row, dr, k);
                assert(ray_hits_at(file, row, df, dr, occupied, target, k + 1));
            }
        }
        if exists|k: int|
            1 <= k <= steps && #[trigger] ray_hits_at(file, row, df, dr, occupied, target, k) {
            let k = choose|k: int|
                1 <= k <= steps && #[trigger] ray_hits_at(file, row, df, dr, occupied, target, k);
            if k > 1 {
                assert(ray_free_at(file, row, df, dr, occupied, 1));
                assert forall|j: int| 1 <= j < k - 1 implies #[trigger] ray_free_at(
                    next_file,
                    next_row,
                    df,
                    dr,
                    occupied,
                    j,
                ) by {
                    lemma_shift(file, df, j);
                    lemma_shift(row, dr, j);
                    assert(ray_free_at(file, row, df, dr, occupied, j + 1));
                }
                lemma_shift(file, df, k - 1);
                lemma_shift(row, dr, k - 1);
                assert(ray_hits_at(next_file, next_row, df, dr, occupied, target, k - 1));
            }
        }
    } else {
        if exists|k: int|
            1 <= k <= steps && #[trigger] ray_hits_at(file, row, df, dr, occupied, target, k) {
            let k = choose|k: int|
                1 <= k <= steps && #[trigger] ray_hits_at(file, row, df, dr, occupied, target, k);
            if k > 1 {
                assert(ray_free_at(file, row, df, dr, occupied, 1));
            }
        }
    }
}

/// Steps back along a ray undo steps along it.
proof fn lemma_back(start: int, d: int, k: int, j: int)
    ensures
        start + k * d + j * (-d) == start + (k - j) * d,
{
    assert(k * d + j * (-d) == (k - j) * d) by (nonlinear_arith);
}

/// A ray that reaches a square is reached from that square by the opposite
/// ray.
pub proof fn lemma_ray_symmetric(from: u8, to: u8, df: int, dr: int, occupied: u64)
    requires
        from < 64,
        to < 64,
        ray_reaches(file_of(from), row_of(from), df, dr, occupied, 7, to),
    ensures
        ray_reaches(file_of(to), row_of(to), -df, -dr, occupied, 7, from),
{
    let f = file_of(from);
    let r = row_of(from);
    lemma_ray_reaches(f, r, df, dr, occupied, 7, to);
    let k = choose|k: int| 1 <= k <= 7 && #[trigger] ray_hits_at(f, r, df, dr, occupied, to, k);
    let tf = f + k * df;
    let tr = r + k * dr;
    lemma_file_row(tf, tr);
    lemma_square_at(from);
    lemma_back(f, df, k, k);
    lemma_back(r, dr, k, k);
    assert forall|j: int| 1 <= j < k implies #[trigger] ray_free_at(
        tf,
        tr,
        -df,
        -dr,
        occupied,
        j,
    ) by {
        lemma_back(f, df, k, j);
        lemma_back(r, dr, k, j);
        assert(ray_free_at(f, r, df, dr, occupied, k - j));
    }
    assert(ray_hits_at(tf, tr, -df, -dr, occupied, from, k));
    lemma_ray_reaches(tf, tr, -df, -dr, occupied, 7, from);
}

/// A rook attacks a square exactly when a rook on that square would attack
/// it.
pub proof fn lemma_rook_symmetric(from: u8, to: u8, occupied: u64)
    requires
        from < 64,
        to < 64,
    ensures
        rook_reaches(from, occupied, to) == rook_reaches(to, occupied, from),
{
    if rook_reaches(from, occupied, to) {
        lemma_rook_one_way(from, to, occupied);
    }
    if rook_reaches(to, occupied, from) {
        lemma_rook_one_way(to, from, occupied);
    }
}

/// One direction of the symmetry of a rook's attacks.
proof fn lemma_rook_one_way(from: u8, to: u8, occupied: u64)
    requires
        from < 64,
        to < 64,
        rook_reaches(from, occupied, to),
    ensures
        rook_reaches(to, occupied, from),
{
    let f = file_of(from);
    let r = row_of(from);
    if ray_reaches(f, r, 0, -1, occupied, 7, to) {
        lemma_ray_symmetric(from, to, 0, -1, occupied);
    } else if ray_reaches(f, r, 1, 0, occupied, 7, to) {
        lemma_ray_symmetric(from, to, 1, 0, occupied);
    } else if ray_reaches(f, r, 0, 1, occupied, 7, to) {
        lemma_ray_symmetric(from, to, 0, 1, occupied);
    } else {
        lemma_ray_symmetric(from, to, -1, 0, occupied);
    }
}

/// A bishop attacks a square exactly when a bishop on that square would
/// attack it.
pub proof fn lemma_bishop_symmetric(from: u8, to: u8, occupied: u64)
    requires
        from < 64,
        to < 64,
    ensures
        bishop_reaches(from, occupied, to) == bishop_reaches(to, occupied, from),
{
    if bishop_reaches(from, occupied, to) {
        lemma_bishop_one_way(from, to, occupied);
    }
    if bishop_reaches(to, occupied, from) {
        lemma_bishop_one_way(to, from, occupied);
    }
}

/// One direction of the symmetry of a bishop's attacks.
proof fn lemma_bishop_one_way(from: u8, to: u8, occupied: u64)
    requires
        from < 64,
        to < 64,
        bishop_reaches(from, occupied, to),
    ensures
        bishop_reaches(to, occupied, from),
{
    let f = file_of(from);
    let r = row_of(from);
    if ray_reaches(f, r, 1, -1, occupied, 7, to) {
        lemma_ray_symmetric(from, to, 1, -1, occupied);
    } else if ray_reaches(f, r, 1, 1, occupied, 7, to) {
        lemma_ray_symmetric(from, to, 1, 1, occupied);
    } else if ray_reaches(f, r, -1, 1, occupied, 7, to) {
        lemma_ray_symmetric(from, to, -1, 1, occupied);
    } else {
        lemma_ray_symmetric(from, to, -1, -1, occupied);
    }
}

/// A knight and a king attack a square exactly when they would be attacked
/// from it; a pawn attacks a square exactly when a pawn of the other colour
/// on that square would attack it.
pub proof fn lemma_steps_symmetric(from: u8, to: u8, white: bool)
    ensures
        knight_jump(from, to) == knight_jump(to, from),
        king_step(from, to) == king_step(to, from),
        pawn_attack(from, white, to) == pawn_attack(to, !white, from),
{
}

} // verus!
