use vstd::prelude::*;
use crate::bits::{bit, group_bits};
use crate::chessbyte::{ChessByte, byte_is_white_kind, byte_is_black_kind};
use crate::maskset::MaskSet;
use crate::material::sum_squares;
use crate::motion::MotionSet;
use crate::threats::{ind, step_square, threat_seq, threat_values};

verus! {

broadcast use group_bits;

// The passed-pawn term of white. A pawn's column neighbours are the columns beside it on the
// board, its side squares the squares beside it on its row, and the square above a square is
// the one a row nearer row 0.

/// The weights of a passed pawn by rank, from rank 1 up.
pub const PASSED_RANK_WEIGHTS: [i32; 7] = [0, 10, 17, 15, 62, 168, 276];

/// The weights of the free squares ahead of a passed pawn.
pub const COMPOUNDING_WEIGHTS: [i32; 5] = [2, 7, 12, 17, 22];

/// Whether square `j` lies in the column of square `i` or in a column beside it.
pub open spec fn near_column(i: int, j: int) -> bool {
    ||| j % 8 == i % 8
    ||| (i % 8 > 0 && j % 8 == i % 8 - 1)
    ||| (i % 8 < 7 && j % 8 == i % 8 + 1)
}

/// The pawns on white squares of the mask ahead of square `i` in its column.
pub open spec fn own_pawns_ahead(b: Seq<u8>, white: u64, i: int) -> int {
    sum_squares(|j: int| ind(bit(white, j) && j / 8 < i / 8 && j % 8 == i % 8 && b[j] & 7u8 == 2), 64)
}

/// The black pawns on black squares of the mask ahead of square `i` in its column and the
/// columns beside it.
pub open spec fn black_pawns_ahead(b: Seq<u8>, black: u64, i: int) -> int {
    sum_squares(
        |j: int| ind(bit(black, j) && j / 8 < i / 8 && near_column(i, j) && byte_is_black_kind(b[j], 2)),
        64,
    )
}

/// The white pawns beside square `i` on its row.
pub open spec fn side_pawns(b: Seq<u8>, i: int) -> int {
    ind(
        match step_square(i, -1, 0) {
            Some(t) => byte_is_white_kind(b[t], 2),
            None => false,
        },
    ) + ind(
        match step_square(i, 1, 0) {
            Some(t) => byte_is_white_kind(b[t], 2),
            None => false,
        },
    )
}

/// Whether the pawn on `i` is a passed candidate: no own pawn ahead in its column, at most two
/// black pawns ahead in its column and those beside it, and no more of them than white pawns
/// beside it.
pub open spec fn candidate(b: Seq<u8>, ms: MaskSet, i: int) -> bool {
    let bpc = black_pawns_ahead(b, ms.black.raw, i);
    &&& own_pawns_ahead(b, ms.white.raw, i) == 0
    &&& bpc <= 2
    &&& bpc - side_pawns(b, i) <= 0
}

/// The weights of the squares above square `s` (`s` included), walking up a row at a time,
/// until a square whose threat value is not below zero.
pub open spec fn compound_from(vals: Seq<i8>, s: int) -> int
    decreases s + 8,
{
    if s < 0 {
        0
    } else if vals[s] >= 0 {
        0
    } else {
        COMPOUNDING_WEIGHTS@[4 - s / 8] + compound_from(vals, s - 8)
    }
}

/// The compounding weight of a pawn on `index`: nothing outside squares `8..40`, else the
/// weights of the squares above it.
pub open spec fn compound_weight(vals: Seq<i8>, index: int) -> int {
    if index < 8 || index > 39 {
        0
    } else {
        compound_from(vals, index - 8)
    }
}

/// What a passed pawn on `i` is worth: its rank weight, 70 times its compounding weight, and
/// -11 per column between it and the nearer edge.
pub open spec fn passed_value(vals: Seq<i8>, i: int) -> int {
    let col = i % 8;
    PASSED_RANK_WEIGHTS@[7 - i / 8] as int + 70 * compound_weight(vals, i) - 11 * (if col < 7 - col {
        col
    } else {
        7 - col
    })
}

/// The passed-pawn term of white on a board: the worth of its white pawns that are candidates.
pub open spec fn passed_total(b: Seq<u8>, moves: &MotionSet, ms: MaskSet) -> int {
    let vals = threat_seq(moves.white_flat.raw, moves.black_defensive_flat.raw, ms.black.raw);
    sum_squares(
        |i: int| if byte_is_white_kind(b[i], 2) && candidate(b, ms, i) { passed_value(vals, i) } else { 0 },
        64,
    )
}

/// The boards whose passed-pawn term reads no weight off its table: no white pawn on row 0 is
/// a candidate.
pub open spec fn passed_defined(b: Seq<u8>, ms: MaskSet) -> bool {
    forall|i: int| 0 <= i < 8 && #[trigger] byte_is_white_kind(b[i], 2) ==> !candidate(b, ms, i)
}

/// Whether a mask holds square `j`.
fn has_square(raw: u64, j: usize) -> (r: bool)
    requires
        j < 64,
    ensures
        r == bit(raw, j as int),
{
    (raw >> (j as u64)) & 1u64 == 1u64
}

/// Whether square `j` lies in the column of `i` or beside it.
fn is_near_column(i: usize, j: usize) -> (r: bool)
    ensures
        r == near_column(i as int, j as int),
{
    let ci = i % 8;
    let cj = j % 8;
    cj == ci || (ci > 0 && cj == ci - 1) || (ci < 7 && cj == ci + 1)
}

/// The white pawn beside `i` at column step `dx`, if there is one.
fn white_pawn_beside(board: &[u8; 64], i: usize, left: bool) -> (r: bool)
    requires
        i < 64,
    ensures
        r == (match step_square(i as int, if left { -1 } else { 1 }, 0) {
            Some(t) => byte_is_white_kind(board@[t], 2),
            None => false,
        }),
{
    if left {
        if i % 8 > 0 {
            board[i - 1].is_w_pawn()
        } else {
            false
        }
    } else {
        if i % 8 < 7 {
            board[i + 1].is_w_pawn()
        } else {
            false
        }
    }
}

/// Whether the pawn on `index` is a passed candidate: no white pawn ahead of it in its column,
/// at most two black pawns ahead in its column and those beside it, and each of them matched by
/// a white pawn beside it. (The threat values do not change the answer.)
pub fn passed_candidate(board: &[u8; 64], maskset: &MaskSet, tvals: &[i8; 64], index: usize) -> (r: bool)
    requires
        index < 64,
    ensures
        r == candidate(board@, *maskset, index as int),
{
    let ghost fo = |j: int|
        ind(bit(maskset.white.raw, j) && j / 8 < index / 8 && j % 8 == index % 8 && board@[j] & 7u8 == 2);
    let ghost fb = |j: int|
        ind(bit(maskset.black.raw, j) && j / 8 < index / 8 && near_column(index as int, j) && byte_is_black_kind(board@[j], 2));
    let mut own: u32 = 0;
    let mut bpc: i32 = 0;
    let mut j: usize = 0;
    while j < 64
        invariant
            j <= 64,
            index < 64,
            fo == (|j: int|
                ind(bit(maskset.white.raw, j) && j / 8 < index / 8 && j % 8 == index % 8 && board@[j] & 7u8 == 2)),
            fb == (|j: int|
                ind(bit(maskset.black.raw, j) && j / 8 < index / 8 && near_column(index as int, j) && byte_is_black_kind(board@[j], 2))),
            own == sum_squares(fo, j as int),
            bpc == sum_squares(fb, j as int),
            own <= j,
            0 <= bpc <= j,
        decreases 64 - j,
    {
        if has_square(maskset.white.raw, j) && j / 8 < index / 8 && j % 8 == index % 8 && board[j].is_pawn() {
            own = own + 1;
        }
        if has_square(maskset.black.raw, j) && j / 8 < index / 8 && is_near_column(index, j) && board[j].is_b_pawn() {
            bpc = bpc + 1;
        }
        j = j + 1;
    }
    if own > 0 {
        return false;
    }
    if bpc > 2 {
        return false;
    }
    if white_pawn_beside(board, index, true) {
        bpc = bpc - 1;
    }
    if white_pawn_beside(board, index, false) {
        bpc = bpc - 1;
    }
    bpc <= 0
}

/// The compounding weight of a passed pawn on `index`: for pawns on squares `8..40`, the
/// weights of the squares above it, walking up until a square whose threat value is not below
/// zero.
pub fn compounding_weight(tvals: &[i8; 64], index: usize) -> (r: i32)
    requires
        index < 64,
    ensures
        r == compound_weight(tvals@, index as int),
        0 <= r <= 58,
{
    if index < 8 || index > 39 {
        return 0;
    }
    let mut s: usize = index - 8;
    let mut value: i32 = 0;
    proof {
        lemma_compound_bound(tvals@, s as int);
    }
    loop
        invariant
            s < 32,
            index >= 8 && index <= 39,
            value + compound_from(tvals@, s as int) == compound_from(tvals@, index - 8),
            0 <= value,
            0 <= compound_from(tvals@, s as int),
            compound_from(tvals@, index - 8) <= 58,
        decreases s,
    {
        if tvals[s] >= 0 {
            return value;
        }
        proof {
            lemma_compound_bound(tvals@, s - 8);
        }
        value = value + COMPOUNDING_WEIGHTS[4 - s / 8];
        if s < 8 {
            return value;
        }
        s = s - 8;
    }
}

/// The most the compounding weight can reach from a square of row `r`.
spec fn compound_cap(r: int) -> int {
    if r <= 0 {
        22
    } else if r == 1 {
        39
    } else if r == 2 {
        51
    } else {
        58
    }
}

/// The compounding weight from a square of rows `0..4` lies between 0 and the cap of its row.
proof fn lemma_compound_bound(vals: Seq<i8>, s: int)
    requires
        s < 32,
    ensures
        0 <= compound_from(vals, s),
        s >= 0 ==> compound_from(vals, s) <= compound_cap(s / 8),
        compound_from(vals, s) <= 58,
    decreases s + 8,
{
    if s >= 0 {
        lemma_compound_bound(vals, s - 8);
    }
}

/// The passed-pawn term of white: for each white pawn that is a passed candidate, its rank
/// weight, 70 times its compounding weight, and -11 per column between it and the nearer edge.
pub fn passed(board: &[u8; 64], moves: &MotionSet, maskset: &MaskSet) -> (r: i32)
    requires
        passed_defined(board@, *maskset),
    ensures
        r == passed_total(board@, moves, *maskset),
        -64 * 33 <= r <= 64 * 4336,
{
    let tvals = threat_values(moves, maskset);
    let ghost vals = threat_seq(moves.white_flat.raw, moves.black_defensive_flat.raw, maskset.black.raw);
    let ghost f = |i: int| if byte_is_white_kind(board@[i], 2) && candidate(board@, *maskset, i) {
        passed_value(vals, i)
    } else {
        0
    };
    let mut total: i32 = 0;
    let mut i: usize = 0;
    while i < 64
        invariant
            i <= 64,
            tvals@ == vals,
            passed_defined(board@, *maskset),
            f == (|i: int| if byte_is_white_kind(board@[i], 2) && candidate(board@, *maskset, i) {
                passed_value(vals, i)
            } else {
                0
            }),
            total == sum_squares(f, i as int),
            -33 * i <= total <= 4336 * i,
        decreases 64 - i,
    {
        if board[i].is_w_pawn() && passed_candidate(board, maskset, &tvals, i) {
            proof {
                assert(i >= 8);
            }
            let rank_weight = PASSED_RANK_WEIGHTS[7 - i / 8];
            let compound = compounding_weight(&tvals, i);
            let col = i % 8;
            let edge: i32 = if col < 7 - col {
                col as i32
            } else {
                (7 - col) as i32
            };
            total = total + rank_weight + 70 * compound - 11 * edge;
        }
        i = i + 1;
    }
    total
}

} // verus!
