use vstd::prelude::*;
use crate::piece::{Parity, PieceByte};
use crate::boardarray::kind_side;
use crate::chessbyte::{byte_piece, byte_is_parity};
use crate::material::{visual_weight, mg_square_weight};
use crate::point::Point;

verus! {

/// Whether white may still castle kingside (castling-rights bit `0b0100`).
pub fn white_kingside_can_castle(cs: u8) -> (r: bool)
    ensures
        r == (cs & 0b0000_0100u8 != 0),
{
    (cs & 0b00000100) != 0
}

/// Whether white may still castle queenside (bit `0b1000`).
pub fn white_queenside_can_castle(cs: u8) -> (r: bool)
    ensures
        r == (cs & 0b0000_1000u8 != 0),
{
    (cs & 0b00001000) != 0
}

/// Whether black may still castle kingside (bit `0b0001`).
pub fn black_kingside_can_castle(cs: u8) -> (r: bool)
    ensures
        r == (cs & 0b0000_0001u8 != 0),
{
    (cs & 0b00000001) != 0
}

/// Whether black may still castle queenside (bit `0b0010`).
pub fn black_queenside_can_castle(cs: u8) -> (r: bool)
    ensures
        r == (cs & 0b0000_0010u8 != 0),
{
    (cs & 0b00000010) != 0
}

/// What the board view reads from the user in one frame: escape, the mouse buttons, the
/// square under the pointer and a request to go on.
pub struct Input {
    pub wants_escape: bool,
    pub left: bool,
    pub right: bool,
    pub pos: Option<Point>,
    pub wants_unpause: bool,
}

/// A value of `0..=u64::MAX` scaled to `0..=omax`, rounding down.
pub fn remap_cha(v: u64, omax: u64) -> (r: u64)
    requires
        v * omax <= u64::MAX,
    ensures
        r == v * omax / (u64::MAX as int),
{
    assert(0 <= v * omax) by (nonlinear_arith);
    u64::MIN + (v - u64::MIN) * (omax - u64::MIN) / (u64::MAX - u64::MIN)
}

/// Rust's `/` on integers: the quotient of the absolute values, negated when the signs differ.
pub open spec fn trunc_div(a: int, b: int) -> int {
    let q = (if a >= 0 { a } else { -a }) / (if b >= 0 { b } else { -b });
    if (a >= 0) == (b >= 0) {
        q
    } else {
        -q
    }
}

/// Whether an integer fits in an `i32`.
pub open spec fn fits_i32(v: int) -> bool {
    i32::MIN <= v <= i32::MAX
}

/// `v` moved from the range `inpair` to the range `outpair`: `outpair.0` plus
/// `(v - inpair.0) * (outpair.1 - outpair.0)` divided (rounding towards zero) by
/// `inpair.1 - inpair.0`.
pub fn remap(v: i32, inpair: (i32, i32), outpair: (i32, i32)) -> (r: i32)
    requires
        inpair.1 != inpair.0,
        fits_i32(v - inpair.0),
        fits_i32(outpair.1 - outpair.0),
        fits_i32(inpair.1 - inpair.0),
        fits_i32((v - inpair.0) * (outpair.1 - outpair.0)),
        fits_i32(outpair.0 + trunc_div((v - inpair.0) * (outpair.1 - outpair.0), inpair.1 - inpair.0)),
    ensures
        r == outpair.0 + trunc_div((v - inpair.0) * (outpair.1 - outpair.0), inpair.1 - inpair.0),
{
    let a: i32 = v - inpair.0;
    let b: i32 = outpair.1 - outpair.0;
    let num: i64 = (a as i64) * (b as i64);
    let den: i64 = (inpair.1 as i64) - (inpair.0 as i64);
    let num_abs: u64 = if num >= 0 { num as u64 } else { (-num) as u64 };
    let den_abs: u64 = if den >= 0 { den as u64 } else { (-den) as u64 };
    let q: u64 = num_abs / den_abs;
    proof {
        assert(q <= num_abs) by (nonlinear_arith)
            requires
                den_abs >= 1,
                q == num_abs / den_abs,
        ;
    }
    let sq: i64 = if (num >= 0) == (den >= 0) { q as i64 } else { -(q as i64) };
    (outpair.0 as i64 + sq) as i32
}

/// The range of the midgame square weights of a kind of piece, used to shade the board.
pub fn visual_weight_remap_table(piece: PieceByte) -> (r: (i32, i32))
    ensures
        r == remap_range(piece),
{
    match piece {
        PieceByte::PAWN => (-23, 40),
        PieceByte::BISHOP => (-53, 39),
        PieceByte::KNIGHT => (-201, 58),
        PieceByte::ROOK => (-31, 18),
        PieceByte::QUEEN => (-5, 14),
        PieceByte::KING => (-1, 327),
        PieceByte::NONE => (0, 0),
    }
}


/// The least and the greatest midgame weight of a kind of piece: the ends of the range its
/// weights are shown in.
pub open spec fn remap_range(piece: PieceByte) -> (i32, i32) {
    match piece {
        PieceByte::PAWN => (-23i32, 40i32),
        PieceByte::BISHOP => (-53i32, 39i32),
        PieceByte::KNIGHT => (-201i32, 58i32),
        PieceByte::ROOK => (-31i32, 18i32),
        PieceByte::QUEEN => (-5i32, 14i32),
        PieceByte::KING => (-1i32, 327i32),
        PieceByte::NONE => (0i32, 0i32),
    }
}

/// A square where a white piece of a kind has the least of its weights.
spec fn lowest_weight_square(k: PieceByte) -> int {
    match k {
        PieceByte::PAWN => 33,
        PieceByte::BISHOP => 56,
        PieceByte::KNIGHT => 0,
        PieceByte::ROOK => 56,
        PieceByte::QUEEN => 57,
        _ => 3,
    }
}

/// A square where a white piece of a kind has the greatest of its weights.
spec fn highest_weight_square(k: PieceByte) -> int {
    match k {
        PieceByte::PAWN => 36,
        PieceByte::BISHOP => 35,
        PieceByte::KNIGHT => 18,
        PieceByte::ROOK => 11,
        PieceByte::QUEEN => 25,
        _ => 57,
    }
}

/// The bytes of the white and black pieces, with their kind and colour bits.
pub(crate) proof fn lemma_white_piece_bytes()
    by (bit_vector)
    ensures
        (2u8 | 8u8) == 10u8 && 10u8 & 7u8 == 2u8 && 10u8 & 8u8 != 0u8 && 10u8 & 15u8 != 0u8,
        (3u8 | 8u8) == 11u8 && 11u8 & 7u8 == 3u8 && 11u8 & 8u8 != 0u8 && 11u8 & 15u8 != 0u8,
        (6u8 | 8u8) == 14u8 && 14u8 & 7u8 == 6u8 && 14u8 & 8u8 != 0u8 && 14u8 & 15u8 != 0u8,
        (1u8 | 8u8) == 9u8 && 9u8 & 7u8 == 1u8 && 9u8 & 8u8 != 0u8 && 9u8 & 15u8 != 0u8,
        (4u8 | 8u8) == 12u8 && 12u8 & 7u8 == 4u8 && 12u8 & 8u8 != 0u8 && 12u8 & 15u8 != 0u8,
        (5u8 | 8u8) == 13u8 && 13u8 & 7u8 == 5u8 && 13u8 & 8u8 != 0u8 && 13u8 & 15u8 != 0u8,
        (1u8 | 0u8) & 7u8 == 1u8 && (1u8 | 0u8) & 8u8 == 0u8,
        (2u8 | 0u8) & 7u8 == 2u8 && (2u8 | 0u8) & 8u8 == 0u8,
        (3u8 | 0u8) & 7u8 == 3u8 && (3u8 | 0u8) & 8u8 == 0u8,
        (4u8 | 0u8) & 7u8 == 4u8 && (4u8 | 0u8) & 8u8 == 0u8,
        (5u8 | 0u8) & 7u8 == 5u8 && (5u8 | 0u8) & 8u8 == 0u8,
        (6u8 | 0u8) & 7u8 == 6u8 && (6u8 | 0u8) & 8u8 == 0u8,
{
}

/// The range that `visual_weight_remap_table` gives a kind of piece is exactly the range of
/// the weights `get_visual_material_weights` gives a white piece of that kind: every square's
/// weight lies within it, and some square reaches each end.
pub proof fn lemma_remap_range_is_weight_range(k: PieceByte)
    requires
        k != PieceByte::NONE,
    ensures
        forall|s: int|
            0 <= s < 64 ==> remap_range(k).0 <= #[trigger] visual_weight(kind_side(k, Parity::WHITE), s)
                <= remap_range(k).1,
        exists|s: int| 0 <= s < 64 && visual_weight(kind_side(k, Parity::WHITE), s) == remap_range(k).0,
        exists|s: int| 0 <= s < 64 && visual_weight(kind_side(k, Parity::WHITE), s) == remap_range(k).1,
{
    let p = kind_side(k, Parity::WHITE);
    lemma_white_piece_bytes();
    match k {
        PieceByte::PAWN => {
            assert(p == 10u8);
        },
        PieceByte::BISHOP => {
            assert(p == 11u8);
        },
        PieceByte::KNIGHT => {
            assert(p == 14u8);
        },
        PieceByte::ROOK => {
            assert(p == 9u8);
        },
        PieceByte::QUEEN => {
            assert(p == 12u8);
        },
        PieceByte::KING => {
            assert(p == 13u8);
        },
        PieceByte::NONE => {},
    }
    assert(byte_piece(p) == k);
    assert(!byte_is_parity(p, Parity::BLACK));
    assert forall|s: int| 0 <= s < 64 implies remap_range(k).0 <= #[trigger] visual_weight(p, s) <= remap_range(k).1 by {
        assert(visual_weight(p, s) == mg_square_weight(p, s));
    }
    let lo = lowest_weight_square(k);
    let hi = highest_weight_square(k);
    assert(visual_weight(p, lo) == mg_square_weight(p, lo));
    assert(visual_weight(p, hi) == mg_square_weight(p, hi));
    assert(visual_weight(p, lo) == remap_range(k).0);
    assert(visual_weight(p, hi) == remap_range(k).1);
}

} // verus!
