//! Castling rights: four bits, one for each side of each colour, in the
//! order in which a position string lists them.

use vstd::prelude::*;
use vstd::string::StringExecFns;

verus! {

/// The squares that must be empty for castling on the king's side, by colour.
pub const CASTLE_KINGSIDE_MASK: [u64; 2] = [0x60, 0x6000_0000_0000_0000];

/// The squares that must be empty for castling on the queen's side, by colour.
pub const CASTLE_QUEENSIDE_MASK: [u64; 2] = [0x0e, 0x0e00_0000_0000_0000];

pub const WHITE_KINGSIDE: u8 = 0b1000;
pub const WHITE_QUEENSIDE: u8 = 0b0100;
pub const BLACK_KINGSIDE: u8 = 0b0010;
pub const BLACK_QUEENSIDE: u8 = 0b0001;

pub const WHITE_BITS: u8 = 0b1100;
pub const BLACK_BITS: u8 = 0b0011;

/// A set of castling rights, in the four low bits.
#[derive(Copy, Clone, Debug)]
pub struct CastlingRights(pub u8);

/// The four bits put together.
pub open spec fn rights_bits(
    white_king: bool,
    white_queen: bool,
    black_king: bool,
    black_queen: bool,
) -> u8 {
    (if white_king { 8u8 } else { 0u8 }) | (if white_queen { 4u8 } else { 0u8 }) | (if black_king {
        2u8
    } else {
        0u8
    }) | (if black_queen { 1u8 } else { 0u8 })
}

/// The text of a set of rights: the letters of those held, in the order
/// `KQkq`, or a dash when none is held.
pub open spec fn rights_text(
    white_king: bool,
    white_queen: bool,
    black_king: bool,
    black_queen: bool,
) -> Seq<char> {
    if !white_king && !white_queen && !black_king && !black_queen {
        seq!['-']
    } else {
        (if white_king { seq!['K'] } else { Seq::<char>::empty() })
        + (if white_queen { seq!['Q'] } else { Seq::<char>::empty() })
        + (if black_king { seq!['k'] } else { Seq::<char>::empty() })
        + (if black_queen { seq!['q'] } else { Seq::<char>::empty() })
    }
}

/// The four bits put together are a set of rights that holds each right
/// exactly when its bit was given.
pub proof fn lemma_rights_bits(
    white_king: bool,
    white_queen: bool,
    black_king: bool,
    black_queen: bool,
)
    ensures
        rights_bits(white_king, white_queen, black_king, black_queen) < 16,
        (rights_bits(white_king, white_queen, black_king, black_queen) & 8 != 0) == white_king,
        (rights_bits(white_king, white_queen, black_king, black_queen) & 4 != 0) == white_queen,
        (rights_bits(white_king, white_queen, black_king, black_queen) & 2 != 0) == black_king,
        (rights_bits(white_king, white_queen, black_king, black_queen) & 1 != 0) == black_queen,
{
    let a: u8 = if white_king { 8u8 } else { 0u8 };
    let b: u8 = if white_queen { 4u8 } else { 0u8 };
    let c: u8 = if black_king { 2u8 } else { 0u8 };
    let d: u8 = if black_queen { 1u8 } else { 0u8 };
    assert((a | b | c | d) < 16 && (((a | b | c | d) & 8 != 0) == (a == 8)) && (((a | b | c | d) & 4
        != 0) == (b == 4)) && (((a | b | c | d) & 2 != 0) == (c == 2)) && (((a | b | c | d) & 1
        != 0) == (d == 1))) by (bit_vector)
        requires
            a == 8 || a == 0,
            b == 4 || b == 0,
            c == 2 || c == 0,
            d == 1 || d == 0,
    ;
}

/// What masking does to each of the four bits, for the masks that this
/// module uses.
pub proof fn lemma_rights_masks(v: u8)
    by (bit_vector)
    ensures
        v & 3 <= v,
        v & 12 <= v,
        v & 254 <= v,
        v & 253 <= v,
        v & 251 <= v,
        v & 247 <= v,
        (v & 3) & 8 == 0 && (v & 3) & 4 == 0 && (v & 3) & 2 == v & 2 && (v & 3) & 1 == v & 1,
        (v & 12) & 8 == v & 8 && (v & 12) & 4 == v & 4 && (v & 12) & 2 == 0 && (v & 12) & 1 == 0,
        (v & 254) & 8 == v & 8 && (v & 254) & 4 == v & 4 && (v & 254) & 2 == v & 2 && (v & 254) & 1
            == 0,
        (v & 253) & 8 == v & 8 && (v & 253) & 4 == v & 4 && (v & 253) & 2 == 0 && (v & 253) & 1 == v
            & 1,
        (v & 251) & 8 == v & 8 && (v & 251) & 4 == 0 && (v & 251) & 2 == v & 2 && (v & 251) & 1 == v
            & 1,
        (v & 247) & 8 == 0 && (v & 247) & 4 == v & 4 && (v & 247) & 2 == v & 2 && (v & 247) & 1 == v
            & 1,
        !1u8 == 254 && !2u8 == 253 && !4u8 == 251 && !8u8 == 247,
        v < 16
            ==> v == ((if v & 8 != 0 { 8u8 } else { 0u8 }) | (if v & 4 != 0 { 4u8 } else { 0u8 })
            | (if v & 2 != 0 { 2u8 } else { 0u8 }) | (if v & 1 != 0 { 1u8 } else { 0u8 })),
{
}

impl CastlingRights {
    /// Whether White may castle on the king's side.
    pub open spec fn white_kingside(&self) -> bool {
        self.0 & WHITE_KINGSIDE != 0
    }

    /// Whether White may castle on the queen's side.
    pub open spec fn white_queenside(&self) -> bool {
        self.0 & WHITE_QUEENSIDE != 0
    }

    /// Whether Black may castle on the king's side.
    pub open spec fn black_kingside(&self) -> bool {
        self.0 & BLACK_KINGSIDE != 0
    }

    /// Whether Black may castle on the queen's side.
    pub open spec fn black_queenside(&self) -> bool {
        self.0 & BLACK_QUEENSIDE != 0
    }

    /// Only the four bits are used.
    pub open spec fn wf(&self) -> bool {
        self.0 < 16
    }

    /// The right of a colour to castle on the king's side.
    pub open spec fn has_kingside(&self, white: bool) -> bool {
        if white {
            self.white_kingside()
        } else {
            self.black_kingside()
        }
    }

    /// The right of a colour to castle on the queen's side.
    pub open spec fn has_queenside(&self, white: bool) -> bool {
        if white {
            self.white_queenside()
        } else {
            self.black_queenside()
        }
    }

    /// The text of these rights in a position string.
    pub open spec fn text(&self) -> Seq<char> {
        rights_text(
            self.white_kingside(),
            self.white_queenside(),
            self.black_kingside(),
            self.black_queenside(),
        )
    }

    /// The rights that a text names: each letter of `KQkq` that occurs in it.
    pub fn from_str(s: &str) -> (rights: Self)
        ensures
            rights.wf(),
            rights.0 == rights_bits(
                s@.contains('K'),
                s@.contains('Q'),
                s@.contains('k'),
                s@.contains('q'),
            ),
            rights.white_kingside() == s@.contains('K'),
            rights.white_queenside() == s@.contains('Q'),
            rights.black_kingside() == s@.contains('k'),
            rights.black_queenside() == s@.contains('q'),
    {
        let n = s.unicode_len();
        let mut white_king = false;
        let mut white_queen = false;
        let mut black_king = false;
        let mut black_queen = false;
        let mut i: usize = 0;
        while i < n
            invariant
                i <= n,
                n == s@.len(),
                white_king == s@.subrange(0, i as int).contains('K'),
                white_queen == s@.subrange(0, i as int).contains('Q'),
                black_king == s@.subrange(0, i as int).contains('k'),
                black_queen == s@.subrange(0, i as int).contains('q'),
            decreases n - i,
        {
            let c = s.get_char(i);
            proof {
                let before = s@.subrange(0, i as int);
                let after = s@.subrange(0, i + 1);
                assert(after =~= before.push(c));
                assert forall|x: char| after.contains(x) == (before.contains(x) || x == c) by {
                    if before.contains(x) {
                        let k = choose|k: int| 0 <= k < before.len() && before[k] == x;
                        assert(after[k] == x);
                    }
                    if x == c {
                        assert(after[i as int] == x);
                    }
                }
            }
            if c == 'K' {
                white_king = true;
            }
            if c == 'Q' {
                white_queen = true;
            }
            if c == 'k' {
                black_king = true;
            }
            if c == 'q' {
                black_queen = true;
            }
            i += 1;
        }
        proof {
            assert(s@.subrange(0, n as int) =~= s@);
            lemma_rights_bits(white_king, white_queen, black_king, black_queen);
        }
        let a: u8 = if white_king { WHITE_KINGSIDE } else { 0 };
        let b: u8 = if white_queen { WHITE_QUEENSIDE } else { 0 };
        let c: u8 = if black_king { BLACK_KINGSIDE } else { 0 };
        let d: u8 = if black_queen { BLACK_QUEENSIDE } else { 0 };
        Self(a | b | c | d)
    }

    /// The text of the rights: the letters of those held, or a dash.
    pub fn to_str(&self) -> (text: String)
        ensures
            text@ == self.text(),
    {
        let mut result = String::new();
        proof {
            reveal_strlit("K");
            reveal_strlit("Q");
            reveal_strlit("k");
            reveal_strlit("q");
            reveal_strlit("-");
        }
        if self.0 & WHITE_KINGSIDE != 0 {
            result.append("K");
        }
        if self.0 & WHITE_QUEENSIDE != 0 {
            result.append("Q");
        }
        if self.0 & BLACK_KINGSIDE != 0 {
            result.append("k");
        }
        if self.0 & BLACK_QUEENSIDE != 0 {
            result.append("q");
        }
        if result.as_str().unicode_len() == 0 {
            let dash = String::from_str("-");
            assert(dash@ =~= self.text());
            dash
        } else {
            assert(result@ =~= self.text());
            result
        }
    }

    /// Takes both rights from one colour.
    pub fn remove_both(&mut self, white: bool)
        ensures
            final(self).0 == old(self).0 & (if white { BLACK_BITS } else { WHITE_BITS }),
            old(self).wf() ==> final(self).wf(),
            final(self).has_kingside(white) == false,
            final(self).has_queenside(white) == false,
            final(self).has_kingside(!white) == old(self).has_kingside(!white),
            final(self).has_queenside(!white) == old(self).has_queenside(!white),
    {
        proof {
            lemma_rights_masks(self.0);
        }
        if white {
            self.0 = self.0 & BLACK_BITS;
        } else {
            self.0 = self.0 & WHITE_BITS;
        }
    }

    /// Takes the right that belongs to a rook's home square; any other square
    /// changes nothing.
    pub fn remove_one(&mut self, square: u8)
        ensures
            final(self).0 == if square == 0 {
                old(self).0 & !BLACK_QUEENSIDE
            } else if square == 7 {
                old(self).0 & !BLACK_KINGSIDE
            } else if square == 56 {
                old(self).0 & !WHITE_QUEENSIDE
            } else if square == 63 {
                old(self).0 & !WHITE_KINGSIDE
            } else {
                old(self).0
            },
            old(self).wf() ==> final(self).wf(),
            final(self).black_queenside() == (old(self).black_queenside() && square != 0),
            final(self).black_kingside() == (old(self).black_kingside() && square != 7),
            final(self).white_queenside() == (old(self).white_queenside() && square != 56),
            final(self).white_kingside() == (old(self).white_kingside() && square != 63),
    {
        proof {
            lemma_rights_masks(self.0);
        }
        if square == 0 {
            self.0 = self.0 & !BLACK_QUEENSIDE;
        } else if square == 7 {
            self.0 = self.0 & !BLACK_KINGSIDE;
        } else if square == 56 {
            self.0 = self.0 & !WHITE_QUEENSIDE;
        } else if square == 63 {
            self.0 = self.0 & !WHITE_KINGSIDE;
        }
    }

    /// Whether a colour may castle on the king's side.
    pub fn kingside(&self, white: bool) -> (held: bool)
        ensures
            held == self.has_kingside(white),
    {
        if white {
            self.0 & WHITE_KINGSIDE != 0
        } else {
            self.0 & BLACK_KINGSIDE != 0
        }
    }

    /// Whether a colour may castle on the queen's side.
    pub fn queenside(&self, white: bool) -> (held: bool)
        ensures
            held == self.has_queenside(white),
    {
        if white {
            self.0 & WHITE_QUEENSIDE != 0
        } else {
            self.0 & BLACK_QUEENSIDE != 0
        }
    }
}

/// Rights are what their four bits say: two sets with the same bits are the
/// same set.
pub proof fn lemma_rights_equal(a: CastlingRights, b: CastlingRights)
    requires
        a.wf(),
        b.wf(),
        a.white_kingside() == b.white_kingside(),
        a.white_queenside() == b.white_queenside(),
        a.black_kingside() == b.black_kingside(),
        a.black_queenside() == b.black_queenside(),
    ensures
        a == b,
{
    lemma_rights_masks(a.0);
    lemma_rights_masks(b.0);
}

} // verus!
