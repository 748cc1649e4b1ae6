//! Bit utilities on 64-bit boards, and the facts about single bits that the
//! rest of the crate builds on.

use vstd::prelude::*;
use vstd::std_specs::bits::*;

verus! {

/// Whether bit `i` of `bb` is set. Bit `i` stands for square `i`.
pub open spec fn has_bit(bb: u64, i: u8) -> bool {
    (bb >> (i as u64)) & 1 == 1
}

/// The board with only square `i` on it.
pub open spec fn bit_of(i: u8) -> u64 {
    1u64 << (i as u64)
}

/// The board with only square `i` on it has square `i` and no other.
pub proof fn lemma_bit_of(i: u8, j: u8)
    requires
        i < 64,
        j < 64,
    ensures
        has_bit(bit_of(i), j) == (i == j),
        bit_of(i) != 0,
{
    assert(((1u64 << (i as u64)) >> (j as u64)) & 1 == 1 <==> i == j) by (bit_vector)
        requires
            i < 64,
            j < 64,
    ;
    assert((1u64 << (i as u64)) != 0) by (bit_vector)
        requires
            i < 64,
    ;
}

/// A square is on the difference of two boards when it is on one of them
/// only.
pub proof fn lemma_bit_xor(x: u64, y: u64, j: u8)
    requires
        j < 64,
    ensures
        has_bit(x ^ y, j) == (has_bit(x, j) != has_bit(y, j)),
{
    assert((((x ^ y) >> (j as u64)) & 1 == 1) == (((x >> (j as u64)) & 1 == 1) != ((y >> (j as u64))
        & 1 == 1))) by (bit_vector);
}

/// A square is on the union of two boards when it is on one of them.
pub proof fn lemma_bit_or(x: u64, y: u64, j: u8)
    requires
        j < 64,
    ensures
        has_bit(x | y, j) == (has_bit(x, j) || has_bit(y, j)),
{
    assert((((x | y) >> (j as u64)) & 1 == 1) == (((x >> (j as u64)) & 1 == 1) || ((y >> (j as u64))
        & 1 == 1))) by (bit_vector);
}

/// A square is on the intersection of two boards when it is on both.
pub proof fn lemma_bit_and(x: u64, y: u64, j: u8)
    requires
        j < 64,
    ensures
        has_bit(x & y, j) == (has_bit(x, j) && has_bit(y, j)),
{
    assert((((x & y) >> (j as u64)) & 1 == 1) == (((x >> (j as u64)) & 1 == 1) && ((y >> (j as u64))
        & 1 == 1))) by (bit_vector);
}

/// A square is on the complement of a board when it is not on the board.
pub proof fn lemma_bit_not(x: u64, j: u8)
    requires
        j < 64,
    ensures
        has_bit(!x, j) == !has_bit(x, j),
{
    assert((((!x) >> (j as u64)) & 1 == 1) == !((x >> (j as u64)) & 1 == 1)) by (bit_vector)
        requires
            j < 64,
    ;
}

/// No square is on the empty board.
pub proof fn lemma_bit_zero(j: u8)
    ensures
        !has_bit(0, j),
{
    assert((0u64 >> (j as u64)) & 1 == 0) by (bit_vector);
}

/// A board with a square on it is not empty; an empty board has none.
pub proof fn lemma_nonzero_has_bit(x: u64)
    ensures
        x != 0 ==> x.trailing_zeros() < 64 && has_bit(x, x.trailing_zeros() as u8),
        x == 0 ==> x.trailing_zeros() == 64,
        forall|j: u8| j < x.trailing_zeros() ==> !has_bit(x, j),
{
    axiom_u64_trailing_zeros(x);
    assert forall|j: u8| j < x.trailing_zeros() implies !has_bit(x, j) by {
        assert((x >> (j as u64)) & 1u64 == 0u64);
    }
}

/// Two boards with the same squares are the same board.
pub proof fn lemma_bits_equal(x: u64, y: u64)
    requires
        forall|j: u8| j < 64 ==> has_bit(x, j) == has_bit(y, j),
    ensures
        x == y,
{
    if x != y {
        let d = x ^ y;
        assert(d != 0) by (bit_vector)
            requires
                d == x ^ y,
                x != y,
        ;
        lemma_nonzero_has_bit(d);
        let t = d.trailing_zeros() as u8;
        lemma_bit_xor(x, y, t);
    }
}

/// Clearing the lowest set bit with `x & (x - 1)` removes exactly that square.
pub proof fn lemma_clear_lowest(x: u64, j: u8)
    requires
        x != 0,
        j < 64,
    ensures
        has_bit((x & ((x - 1) as u64)), j) == (has_bit(x, j) && j != x.trailing_zeros()),
{
    lemma_nonzero_has_bit(x);
    let t = x.trailing_zeros() as u8;
    let y = (x - 1) as u64;
    axiom_u64_trailing_zeros(x);
    let s = (64 - t) as u64;
    assert(x << s == 0);
    assert((((x & y) >> (j as u64)) & 1 == 1) == (((x >> (j as u64)) & 1 == 1) && j != t))
        by (bit_vector)
        requires
            x != 0,
            y == x - 1,
            j < 64,
            t < 64,
            s == 64 - t,
            (x >> (t as u64)) & 1 == 1,
            x << s == 0,
    ;
}

/// The board with only square `i` on it.
pub fn square_bit(i: u8) -> (bb: u64)
    requires
        i < 64,
    ensures
        bb == bit_of(i),
        bb != 0,
        forall|j: u8| j < 64 ==> #[trigger] has_bit(bb, j) == (i == j),
{
    proof {
        assert forall|j: u8| j < 64 implies #[trigger] has_bit(bit_of(i), j) == (i == j) by {
            lemma_bit_of(i, j);
        }
        lemma_bit_of(i, i);
    }
    1u64 << (i as u64)
}

/// Whether square `i` is on the board `bb`.
pub fn test_bit(bb: u64, i: u8) -> (set: bool)
    requires
        i < 64,
    ensures
        set == has_bit(bb, i),
{
    (bb >> (i as u64)) & 1 == 1
}

/// Removes the lowest square from the board and returns its index.
pub fn pop_lsb(value: &mut u64) -> (i: u8)
    requires
        *old(value) != 0,
    ensures
        i < 64,
        i == old(value).trailing_zeros(),
        has_bit(*old(value), i),
        forall|j: u8| j < i ==> !has_bit(*old(value), j),
        forall|j: u8| j < 64 ==> has_bit(*final(value), j) == (has_bit(*old(value), j) && j != i),
{
    let v: u64 = *value;
    let i: u32 = v.trailing_zeros();
    proof {
        lemma_nonzero_has_bit(v);
        assert forall|j: u8| j < 64 implies has_bit((v & ((v - 1) as u64)), j) == (has_bit(v, j)
            && j != i) by {
            lemma_clear_lowest(v, j);
        }
    }
    *value = v & (v - 1);
    i as u8
}

/// The index of the lowest square on the board, or 64 on an empty board.
pub fn get_lsb(value: u64) -> (i: u8)
    ensures
        i == value.trailing_zeros(),
        value == 0 <==> i == 64,
        value != 0 ==> i < 64 && has_bit(value, i),
        forall|j: u8| j < i ==> !has_bit(value, j),
{
    proof {
        lemma_nonzero_has_bit(value);
    }
    value.trailing_zeros() as u8
}

/// The sign of a score: 1 for a positive one, -1 otherwise.
pub fn get_sign(x: i16) -> (s: i16)
    ensures
        s == if x > 0 { 1i16 } else { -1i16 },
{
    if x > 0 {
        1
    } else {
        -1
    }
}

/// The number of squares below `n` on a board.
pub open spec fn bit_count(bb: u64, n: nat) -> nat
    decreases n,
{
    if n == 0 {
        0
    } else {
        bit_count(bb, (n - 1) as nat) + if has_bit(bb, (n - 1) as u8) {
            1nat
        } else {
            0nat
        }
    }
}

/// Squares that are not on the board add nothing to the count.
pub proof fn lemma_bit_count_skip(bb: u64, low: nat, high: nat)
    requires
        low <= high <= 64,
        forall|j: u8| low <= j < high ==> !has_bit(bb, j),
    ensures
        bit_count(bb, high) == bit_count(bb, low),
    decreases high - low,
{
    if low < high {
        lemma_bit_count_skip(bb, low, (high - 1) as nat);
    }
}

/// The number of squares on a board.
pub fn count_ones(bb: u64) -> (count: u32)
    ensures
        count == bit_count(bb, 64),
        count <= 64,
{
    let mut remaining = bb;
    let mut count: u32 = 0;
    let ghost mut cursor: nat = 0;
    while remaining != 0
        invariant
            cursor <= 64,
            count == bit_count(bb, cursor),
            count <= cursor,
            forall|j: u8|
                j < 64 ==> #[trigger] has_bit(remaining, j) == (has_bit(bb, j) && j >= cursor),
        decreases 64 - cursor,
    {
        let ghost before = remaining;
        let index = pop_lsb(&mut remaining);
        proof {
            assert(has_bit(before, index));
            assert forall|j: u8| cursor <= j < index implies !has_bit(bb, j) by {
                assert(!has_bit(before, j));
            }
            lemma_bit_count_skip(bb, cursor, index as nat);
            cursor = (index + 1) as nat;
        }
        count += 1;
    }
    proof {
        assert forall|j: u8| cursor <= j < 64 implies !has_bit(bb, j) by {
            lemma_bit_zero(j);
            assert(!has_bit(remaining, j));
        }
        lemma_bit_count_skip(bb, cursor, 64);
    }
    count
}

} // verus!
