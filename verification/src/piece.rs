use vstd::prelude::*;
use crate::mask::Mask;

verus! {

/// The kind of a piece, as stored in the low three bits of a board byte.
#[derive(Clone, Copy, Debug, PartialEq, Eq, Structural)]
pub enum PieceByte {
    ROOK,
    PAWN,
    BISHOP,
    QUEEN,
    KING,
    KNIGHT,
    NONE,
}

/// The side a piece belongs to; `WHITE` is the bit `0b0000_1000` of a board byte.
#[derive(Clone, Copy, Debug, PartialEq, Eq, Structural)]
pub enum Parity {
    WHITE,
    BLACK,
    BOTH,
    NONE,
}

/// The three-bit code of each kind of piece.
pub open spec fn piece_code(p: PieceByte) -> u8 {
    match p {
        PieceByte::ROOK => 1u8,
        PieceByte::PAWN => 2u8,
        PieceByte::BISHOP => 3u8,
        PieceByte::QUEEN => 4u8,
        PieceByte::KING => 5u8,
        PieceByte::KNIGHT => 6u8,
        PieceByte::NONE => 0u8,
    }
}

/// The kind of piece that a code denotes; every code without a kind is `NONE`.
pub open spec fn piece_of_code(v: u8) -> PieceByte {
    if v == 1 {
        PieceByte::ROOK
    } else if v == 2 {
        PieceByte::PAWN
    } else if v == 3 {
        PieceByte::BISHOP
    } else if v == 4 {
        PieceByte::QUEEN
    } else if v == 5 {
        PieceByte::KING
    } else if v == 6 {
        PieceByte::KNIGHT
    } else {
        PieceByte::NONE
    }
}

/// The byte of each side.
pub open spec fn parity_code(p: Parity) -> u8 {
    match p {
        Parity::WHITE => 8u8,
        Parity::BLACK => 0u8,
        Parity::BOTH => 255u8,
        Parity::NONE => 127u8,
    }
}

/// The opposing side: white and black swap, as do `BOTH` and `NONE`.
pub open spec fn opposite(p: Parity) -> Parity {
    match p {
        Parity::WHITE => Parity::BLACK,
        Parity::BLACK => Parity::WHITE,
        Parity::BOTH => Parity::NONE,
        Parity::NONE => Parity::BOTH,
    }
}

/// The side after `n` alternations.
pub open spec fn parity_after(p: Parity, n: nat) -> Parity
    decreases n,
{
    if n == 0 {
        p
    } else {
        opposite(parity_after(p, (n - 1) as nat))
    }
}

impl PieceByte {
    /// The kind of piece that a three-bit code denotes.
    pub fn from_u8(value: u8) -> (r: PieceByte)
        ensures
            r == piece_of_code(value),
    {
        match value {
            1 => PieceByte::ROOK,
            2 => PieceByte::PAWN,
            3 => PieceByte::BISHOP,
            4 => PieceByte::QUEEN,
            5 => PieceByte::KING,
            6 => PieceByte::KNIGHT,
            _ => PieceByte::NONE,
        }
    }

    /// The code of this kind of piece.
    pub fn to_u8(self) -> (r: u8)
        ensures
            r == piece_code(self),
    {
        match self {
            PieceByte::ROOK => 1,
            PieceByte::PAWN => 2,
            PieceByte::BISHOP => 3,
            PieceByte::QUEEN => 4,
            PieceByte::KING => 5,
            PieceByte::KNIGHT => 6,
            PieceByte::NONE => 0,
        }
    }

    /// The byte of a piece of this kind on the given side.
    pub fn with_parity(self, parity: Parity) -> (r: u8)
        ensures
            r == piece_code(self) | parity_code(parity),
    {
        self.to_u8() | parity.to_u8()
    }

    /// The printed name of the kind.
    pub fn name(self) -> (r: &'static str)
        ensures
            r@ == piece_name(self),
    {
        match self {
            PieceByte::ROOK => "ROOK",
            PieceByte::PAWN => "PAWN",
            PieceByte::BISHOP => "BISHOP",
            PieceByte::QUEEN => "QUEEN",
            PieceByte::KING => "KING",
            PieceByte::KNIGHT => "KNIGHT",
            PieceByte::NONE => "NONE",
        }
    }
}

/// The printed name of each kind of piece.
pub open spec fn piece_name(p: PieceByte) -> Seq<char> {
    match p {
        PieceByte::ROOK => "ROOK"@,
        PieceByte::PAWN => "PAWN"@,
        PieceByte::BISHOP => "BISHOP"@,
        PieceByte::QUEEN => "QUEEN"@,
        PieceByte::KING => "KING"@,
        PieceByte::KNIGHT => "KNIGHT"@,
        PieceByte::NONE => "NONE"@,
    }
}

/// The printed name of each side.
pub open spec fn parity_name(p: Parity) -> Seq<char> {
    match p {
        Parity::WHITE => "White"@,
        Parity::BLACK => "Black"@,
        Parity::BOTH => "Both"@,
        Parity::NONE => "None"@,
    }
}

impl Parity {
    /// The byte of this side.
    pub fn to_u8(self) -> (r: u8)
        ensures
            r == parity_code(self),
    {
        match self {
            Parity::WHITE => 8,
            Parity::BLACK => 0,
            Parity::BOTH => 255,
            Parity::NONE => 127,
        }
    }

    /// The opposing side.
    pub fn not(self) -> (r: Parity)
        ensures
            r == opposite(self),
    {
        match self {
            Parity::WHITE => Parity::BLACK,
            Parity::BLACK => Parity::WHITE,
            Parity::BOTH => Parity::NONE,
            Parity::NONE => Parity::BOTH,
        }
    }

    /// The side to move `depth` plies from now; a negative depth is no ply.
    pub fn at_depth(&self, depth: i32) -> (r: Parity)
        ensures
            depth <= 0 ==> r == *self,
            depth > 0 ==> r == parity_after(*self, depth as nat),
    {
        let mut r = *self;
        let mut i: i32 = 0;
        while i < depth
            invariant
                0 <= i,
                depth > 0 ==> i <= depth,
                depth <= 0 ==> i == 0,
                r == parity_after(*self, i as nat),
            decreases depth - i,
        {
            r = r.not();
            i = i + 1;
            assert(parity_after(*self, i as nat) == opposite(parity_after(*self, (i - 1) as nat)));
        }
        r
    }

    /// Whether a side equals a boolean, `BLACK` standing for `false` and every other side for `true`.
    pub fn eq_bool(&self, other: bool) -> (r: bool)
        ensures
            r == (if *self == Parity::BLACK { !other } else { other }),
    {
        match self {
            Parity::BLACK => !other,
            _ => other,
        }
    }

    /// Whether this side is white.
    pub fn into_bool(self) -> (r: bool)
        ensures
            r == (self == Parity::WHITE),
    {
        match self {
            Parity::WHITE => true,
            _ => false,
        }
    }

    /// The printed name of the side.
    pub fn name(self) -> (r: &'static str)
        ensures
            r@ == parity_name(self),
    {
        match self {
            Parity::WHITE => "White",
            Parity::BLACK => "Black",
            Parity::BOTH => "Both",
            Parity::NONE => "None",
        }
    }
}

/// `"WHITE"` for white and `"BLACK"` for every other side.
pub fn parity_to_string(parity: Parity) -> (r: &'static str)
    ensures
        r@ == (if parity == Parity::WHITE { "WHITE"@ } else { "BLACK"@ }),
{
    match parity {
        Parity::WHITE => "WHITE",
        _ => "BLACK",
    }
}

/// Turning to the opposing side twice gives back the side.
pub proof fn lemma_opposite_involution(p: Parity)
    ensures
        opposite(opposite(p)) == p,
{
}

/// Two plies bring back the side to move.
pub proof fn lemma_at_depth_period(p: Parity, n: nat)
    ensures
        parity_after(p, n + 2) == parity_after(p, n),
{
    reveal_with_fuel(parity_after, 3);
}

/// Alternating `a` times and then `b` times is alternating `a + b` times, so looking `a`
/// plies ahead and then `b` more is looking `a + b` plies ahead.
pub proof fn lemma_parity_after_add(p: Parity, a: nat, b: nat)
    ensures
        parity_after(parity_after(p, a), b) == parity_after(p, a + b),
    decreases b,
{
    if b > 0 {
        lemma_parity_after_add(p, a, (b - 1) as nat);
    }
}

/// An even number of plies brings back the side, an odd number gives the opposing side.
pub proof fn lemma_parity_after_even_odd(p: Parity, n: nat)
    ensures
        n % 2 == 0 ==> parity_after(p, n) == p,
        n % 2 == 1 ==> parity_after(p, n) == opposite(p),
    decreases n,
{
    if n > 0 {
        lemma_parity_after_even_odd(p, (n - 1) as nat);
        lemma_opposite_involution(p);
    }
}

/// Decoding the code of a kind of piece gives back the kind.
pub proof fn lemma_piece_code_roundtrip(p: PieceByte)
    ensures
        piece_of_code(piece_code(p)) == p,
{
}

/// The moves cached for a piece: its moves, a state mask and castling bits.
#[derive(Clone, Copy, Debug)]
pub struct PieceCachedMoves {
    pub moves: Mask,
    pub state: Mask,
    pub castles: u8,
}

impl Default for PieceCachedMoves {
    fn default() -> (r: PieceCachedMoves)
        ensures
            r.moves.raw == 0 && r.state.raw == 0 && r.castles == 0,
    {
        PieceCachedMoves { moves: Mask { raw: 0 }, state: Mask { raw: 0 }, castles: 0u8 }
    }
}

} // verus!
