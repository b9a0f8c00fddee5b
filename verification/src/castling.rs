use crate::types::Player;
use vstd::prelude::*;

verus! {

/// One castling right: a side, and the wing on which that side may still castle.
#[derive(Copy, Clone, Debug, PartialEq, Eq, Structural)]
pub enum CastlingRight {
    WhiteK,
    WhiteQ,
    BlackK,
    BlackQ,
}

impl CastlingRight {
    /// The bit that stands for this right in the word of a set of rights.
    pub open spec fn spec_mask(self) -> u8 {
        match self {
            CastlingRight::WhiteK => 1,
            CastlingRight::WhiteQ => 2,
            CastlingRight::BlackK => 4,
            CastlingRight::BlackQ => 8,
        }
    }

    /// The bit that stands for this right in the word of a set of rights.
    #[verifier::when_used_as_spec(spec_mask)]
    pub fn mask(self) -> (r: u8)
        ensures
            r == self.spec_mask(),
    {
        match self {
            CastlingRight::WhiteK => 1,
            CastlingRight::WhiteQ => 2,
            CastlingRight::BlackK => 4,
            CastlingRight::BlackQ => 8,
        }
    }

    /// The right of `player` to castle on the king's side.
    pub open spec fn spec_king_side(player: Player) -> CastlingRight {
        match player {
            Player::White => CastlingRight::WhiteK,
            Player::Black => CastlingRight::BlackK,
        }
    }

    /// The right of `player` to castle on the king's side.
    #[verifier::when_used_as_spec(spec_king_side)]
    pub fn king_side(player: Player) -> (r: CastlingRight)
        ensures
            r == CastlingRight::spec_king_side(player),
    {
        match player {
            Player::White => CastlingRight::WhiteK,
            Player::Black => CastlingRight::BlackK,
        }
    }

    /// The right of `player` to castle on the queen's side.
    pub open spec fn spec_queen_side(player: Player) -> CastlingRight {
        match player {
            Player::White => CastlingRight::WhiteQ,
            Player::Black => CastlingRight::BlackQ,
        }
    }

    /// The right of `player` to castle on the queen's side.
    #[verifier::when_used_as_spec(spec_queen_side)]
    pub fn queen_side(player: Player) -> (r: CastlingRight)
        ensures
            r == CastlingRight::spec_queen_side(player),
    {
        match player {
            Player::White => CastlingRight::WhiteQ,
            Player::Black => CastlingRight::BlackQ,
        }
    }
}

/// A set of castling rights, held as a word of four bits.
#[derive(Copy, Clone, Debug, PartialEq, Eq, Structural)]
pub struct Castling {
    pub bits: u8,
}

proof fn lemma_flags(a: u8, f: u8, g: u8)
    by (bit_vector)
    requires
        f == 1 || f == 2 || f == 4 || f == 8,
        g == 1 || g == 2 || g == 4 || g == 8,
    ensures
        ((a & !f) & g != 0) == (f != g && a & g != 0),
        ((a | f) & g != 0) == (f == g || a & g != 0),
        ((a & 15) & g != 0) == (a & g != 0),
        0u8 & g == 0,
        15u8 & g != 0,
        a <= 15 ==> (a & !f) <= 15 && (a | f) <= 15,
        (a & 15) <= 15,
{
}

impl Castling {
    /// Whether the right `right` is in this set.
    pub open spec fn spec_contains(self, right: CastlingRight) -> bool {
        self.bits & right.spec_mask() != 0
    }

    /// This set without the right `right`.
    pub open spec fn without(self, right: CastlingRight) -> Castling {
        Castling { bits: self.bits & !right.spec_mask() }
    }

    /// This set together with the right `right`.
    pub open spec fn with(self, right: CastlingRight) -> Castling {
        Castling { bits: self.bits | right.spec_mask() }
    }

    /// No right at all.
    pub fn empty() -> (r: Castling)
        ensures
            r.bits == 0,
    {
        Castling { bits: 0 }
    }

    /// All four rights.
    pub fn all() -> (r: Castling)
        ensures
            r.bits == 15,
    {
        Castling { bits: 15 }
    }

    /// The set whose word is `bits`, without the bits that stand for no right.
    pub fn from_bits_truncate(bits: u8) -> (r: Castling)
        ensures
            r.bits == bits & 15,
    {
        Castling { bits: bits & 15 }
    }

    /// The word of this set: bit 0 for White's king side, bit 1 for White's queen side, bit 2
    /// for Black's king side, bit 3 for Black's queen side.
    pub fn bits(&self) -> (r: u8)
        ensures
            r == self.bits,
    {
        self.bits
    }

    /// Whether this set holds no right.
    pub fn is_empty(&self) -> (r: bool)
        ensures
            r == (self.bits == 0),
    {
        self.bits == 0
    }

    /// Whether the right `right` is in this set.
    #[verifier::when_used_as_spec(spec_contains)]
    pub fn contains(self, right: CastlingRight) -> (r: bool)
        ensures
            r == self.spec_contains(right),
    {
        self.bits & right.mask() != 0
    }

    /// Takes the right `right` out of this set.
    pub fn remove(&mut self, right: CastlingRight)
        ensures
            *final(self) == old(self).without(right),
    {
        self.bits = self.bits & !right.mask();
    }

    /// Puts the right `right` into this set.
    pub fn insert(&mut self, right: CastlingRight)
        ensures
            *final(self) == old(self).with(right),
    {
        self.bits = self.bits | right.mask();
    }

    /// Which rights a set holds after a right was taken out or put in.
    pub proof fn lemma_rights(self, f: CastlingRight, g: CastlingRight)
        ensures
            self.without(f).spec_contains(g) == (f != g && self.spec_contains(g)),
            self.with(f).spec_contains(g) == (f == g || self.spec_contains(g)),
            !(Castling { bits: 0 }).spec_contains(g),
            (Castling { bits: 15 }).spec_contains(g),
            (Castling { bits: self.bits & 15 }).spec_contains(g) == self.spec_contains(g),
            self.bits <= 15 ==> self.without(f).bits <= 15 && self.with(f).bits <= 15,
    {
        lemma_flags(self.bits, f.spec_mask(), g.spec_mask());
    }
}

} // verus!
