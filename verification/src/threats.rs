use vstd::prelude::*;
use crate::bits::{bit, mask_of, lemma_is_mask_of, lemma_and_single, group_bits};
use crate::chessbyte::{ChessByte, byte_is_white_kind, byte_is_black_kind, byte_is_black, byte_is_piece};
use crate::mask::{Mask, popcount};
use crate::maskset::MaskSet;
use crate::material::sum_squares;
use crate::motion::MotionSet;

verus! {

broadcast use group_bits;

// Threat terms of white against black that read only the move masks of a position.

/// The squares of column `c`.
pub open spec fn column_mask(c: int) -> u64 {
    mask_of(|j: int| j % 8 == c)
}

/// The number of squares white reaches that black covers in defence or reaches itself.
pub open spec fn restricted_count(moves: &MotionSet) -> int {
    popcount(moves.white_flat.raw & (moves.black_defensive_flat.raw | moves.black_flat.raw)) as int
}

/// The number of black pieces that the moves of the white piece on `king` reach and that no
/// black piece covers.
pub open spec fn king_threat_count(moves: &MotionSet, ms: MaskSet, king: int) -> int {
    popcount(moves.white_piecewise_flat@[king].raw & ms.black.raw & !moves.black_defensive_flat.raw) as int
}

/// What the white pawn on `i` adds to the safe-pawn threat: when a white piece covers it, the
/// black pieces its moves reach outside its own column; squares outside `8..56` add nothing.
pub open spec fn safe_pawn_count(b: Seq<u8>, moves: &MotionSet, ms: MaskSet, i: int) -> int {
    if 8 <= i < 56 && byte_is_white_kind(b[i], 2) && bit(moves.white_defensive_flat.raw, i) {
        popcount(moves.white_piecewise_flat@[i].raw & ms.black.raw & !column_mask(i % 8)) as int
    } else {
        0
    }
}

/// The safe-pawn threat of white: the sum over the squares of `safe_pawn_count`.
pub open spec fn safe_pawn_total(b: Seq<u8>, moves: &MotionSet, ms: MaskSet) -> int {
    sum_squares(|i: int| safe_pawn_count(b, moves, ms, i), 64)
}

/// A mask has at most 64 squares.
proof fn lemma_popcount_bound(raw: u64)
    ensures
        popcount(raw) <= 64,
{
    crate::mask::lemma_squares_upto(raw, 64);
}

/// The squares white reaches that black covers or reaches.
pub fn restricted_threat(moves: &MotionSet) -> (r: u32)
    ensures
        r == restricted_count(moves),
{
    moves.white_flat.and(moves.black_defensive_flat.or(moves.black_flat)).bit_count()
}

/// The black pieces that the white piece on `king` reaches and no black piece covers.
pub fn king_threat(moves: &MotionSet, maskset: &MaskSet, king: usize) -> (r: u32)
    requires
        king < 64,
    ensures
        r == king_threat_count(moves, *maskset, king as int),
{
    moves.white_piecewise_flat[king].and(maskset.black).and(moves.black_defensive_flat.get_not()).bit_count()
}

/// The safe-pawn threat: for each white pawn on squares `8..56` that a white piece covers, the
/// black pieces its moves reach outside its own column.
pub fn pawn_safe_threat(board: &[u8; 64], moves: &MotionSet, maskset: &MaskSet) -> (r: u32)
    ensures
        r == safe_pawn_total(board@, moves, *maskset),
        r <= 64 * 64,
{
    let ghost f = |i: int| safe_pawn_count(board@, moves, *maskset, i);
    let mut c: u32 = 0;
    let mut i: usize = 0;
    while i < 8
        invariant
            i <= 8,
            c == 0,
            f == (|i: int| safe_pawn_count(board@, moves, *maskset, i)),
            sum_squares(f, i as int) == 0,
        decreases 8 - i,
    {
        i = i + 1;
    }
    while i < 56
        invariant
            8 <= i <= 56,
            f == (|i: int| safe_pawn_count(board@, moves, *maskset, i)),
            c == sum_squares(f, i as int),
            c <= i * 64,
        decreases 56 - i,
    {
        if board[i].is_w_pawn() {
            let m = Mask::from_index(i);
            let covered = moves.white_defensive_flat.and(m);
            proof {
                lemma_and_single(moves.white_defensive_flat.raw, i as int);
            }
            if covered.any() {
                let column = Mask::of_column((i % 8) as i32);
                proof {
                    lemma_is_mask_of(column.raw, |j: int| j % 8 == (i % 8) as int);
                }
                let reached = moves.white_piecewise_flat[i].and(maskset.black).and(column.get_not());
                let n = reached.bit_count();
                proof {
                    lemma_popcount_bound(reached.raw);
                }
                c = c + n;
            }
        }
        i = i + 1;
    }
    while i < 64
        invariant
            56 <= i <= 64,
            f == (|i: int| safe_pawn_count(board@, moves, *maskset, i)),
            c == sum_squares(f, i as int),
        decreases 64 - i,
    {
        i = i + 1;
    }
    c
}


// The threat term as a whole. The helpers it leans on are read as follows: a square's
// diagonal neighbours above and below, its knight squares and its side neighbours are the
// squares that lie on the board at those steps; the threat values are one signed count per
// square; the mask that starts the threat-value walk is square 0.

/// One for a condition that holds, zero otherwise.
pub open spec fn ind(c: bool) -> int {
    if c {
        1
    } else {
        0
    }
}

/// The square `dx` columns and `dy` rows away from square `s`, when it is on the board.
pub open spec fn step_square(s: int, dx: int, dy: int) -> Option<int> {
    let x = s % 8 + dx;
    let y = s / 8 + dy;
    if 0 <= x < 8 && 0 <= y < 8 {
        Some(y * 8 + x)
    } else {
        None
    }
}

/// Whether a mask holds the square `dx` columns and `dy` rows away from `s`.
pub open spec fn holds_step(raw: u64, s: int, dx: int, dy: int) -> bool {
    match step_square(s, dx, dy) {
        Some(j) => bit(raw, j),
        None => false,
    }
}

/// The column step of the `k`-th knight jump.
pub open spec fn knight_dx(k: int) -> int {
    if k == 0 || k == 3 {
        1
    } else if k == 1 || k == 2 {
        2
    } else if k == 4 || k == 7 {
        -1
    } else {
        -2
    }
}

/// The row step of the `k`-th knight jump.
pub open spec fn knight_dy(k: int) -> int {
    if k == 0 || k == 7 {
        2
    } else if k == 1 || k == 6 {
        1
    } else if k == 2 || k == 5 {
        -1
    } else {
        -2
    }
}

/// The move masks of each square, as a sequence.
pub open spec fn piecewise_raw(m: [Mask; 64]) -> Seq<u64> {
    Seq::new(64, |i: int| m@[i].raw)
}

/// The threat value of square `i`: one when white reaches a black piece there, less one when
/// black covers a black piece there.
pub open spec fn threat_value(wf: u64, bdef: u64, black: u64, i: int) -> int {
    ind(bit(wf, i) && bit(black, i)) - ind(bit(bdef, i) && bit(black, i))
}

/// The threat values of the 64 squares.
pub open spec fn threat_seq(wf: u64, bdef: u64, black: u64) -> Seq<i8> {
    Seq::new(64, |i: int| threat_value(wf, bdef, black, i) as i8)
}

/// The squares whose value is above zero.
pub open spec fn positive_count(vals: Seq<i8>) -> int {
    sum_squares(|i: int| ind(vals[i] > 0), 64)
}

/// What a square that a white pawn can go to adds to the pawn-push threat: when a white piece
/// stands diagonally below it, the black pieces diagonally above it.
pub open spec fn push_target(white: u64, black: u64, j: int) -> int {
    if holds_step(white, j, -1, 1) || holds_step(white, j, 1, 1) {
        ind(holds_step(black, j, -1, -1)) + ind(holds_step(black, j, 1, -1))
    } else {
        0
    }
}

/// Square `j` as a target of the white pawn on `i`: a square its moves reach in its own column
/// or on a black piece.
pub open spec fn push_term(wp: Seq<u64>, white: u64, black: u64, i: int, j: int) -> int {
    if bit(wp[i], j) && (j % 8 == i % 8 || bit(black, j)) {
        push_target(white, black, j)
    } else {
        0
    }
}

/// What the piece on `i` adds to the pawn-push threat: for a white pawn on squares `16..56`,
/// the sum over its targets.
pub open spec fn pawn_push_count(b: Seq<u8>, wp: Seq<u64>, white: u64, black: u64, i: int) -> int {
    if 16 <= i < 56 && byte_is_white_kind(b[i], 2) {
        sum_squares(|j: int| push_term(wp, white, black, i, j), 64)
    } else {
        0
    }
}

/// The pawn-push threat of white.
pub open spec fn pawn_push_total(b: Seq<u8>, wp: Seq<u64>, white: u64, black: u64) -> int {
    sum_squares(|i: int| pawn_push_count(b, wp, white, black, i), 64)
}

/// The number of black pieces whose defensive moves cover square `j`.
pub open spec fn defenders(b: Seq<u8>, bdp: Seq<u64>, j: int) -> int {
    sum_squares(|i: int| ind(byte_is_black(b[i]) && bit(bdp[i], j)), 64)
}

/// The weak protection of the black queen on `q`: squares covered by exactly one black piece,
/// covered by the queen, reached by white and holding a black piece.
pub open spec fn weak_count(b: Seq<u8>, bdp: Seq<u64>, wf: u64, black: u64, q: int) -> int {
    sum_squares(
        |j: int| ind(defenders(b, bdp, j) == 1 && bit(bdp[q], j) && bit(wf, j) && bit(black, j)),
        64,
    )
}

/// The white knights a knight's jump away from square `a`.
pub open spec fn knights_around(b: Seq<u8>, a: int) -> int {
    sum_squares(
        |k: int|
            ind(
                match step_square(a, knight_dx(k), knight_dy(k)) {
                    Some(t) => byte_is_white_kind(b[t], 6),
                    None => false,
                },
            ),
        8,
    )
}

/// The `k`-th knight square of the black queen on `q`, when white reaches it and black does
/// not cover it, counts the white knights a jump away from it.
pub open spec fn queen_knight_term(b: Seq<u8>, wf: u64, bdef: u64, q: int, k: int) -> int {
    match step_square(q, knight_dx(k), knight_dy(k)) {
        Some(a) => if bit(wf, a) && !bit(bdef, a) {
            knights_around(b, a)
        } else {
            0
        },
        None => 0,
    }
}

/// The knight threat on the black queen on `q`.
pub open spec fn queen_knight_count(b: Seq<u8>, wf: u64, bdef: u64, q: int) -> int {
    sum_squares(|k: int| queen_knight_term(b, wf, bdef, q, k), 8)
}

/// What the white piece on `k` adds to the slider threat on the black queen on `q`: when its
/// moves reach the queen, the squares its moves reach that white covers. (The row and column
/// filters of this term are joined with `&=`, which this library computes as a union, so the
/// filter keeps every square.)
pub open spec fn slide_term(wp: Seq<u64>, wdef: u64, q: int, k: int) -> int {
    if bit(wp[k], q) {
        sum_squares(|j: int| ind(bit(wp[k], j) && bit(wdef, j)), 64)
    } else {
        0
    }
}

/// The slider threat on the black queen on `q`.
pub open spec fn queen_slide_count(wp: Seq<u64>, wdef: u64, q: int) -> int {
    sum_squares(|k: int| slide_term(wp, wdef, q, k), 64)
}

/// The weight of a threatened black piece by its kind: pawn, knight, bishop, rook, queen.
pub open spec fn kind_weight(b: u8, w: Seq<i32>) -> int {
    let k = b & 7u8;
    if k == 2 {
        w[0] as int
    } else if k == 6 {
        w[1] as int
    } else if k == 3 {
        w[2] as int
    } else if k == 1 {
        w[3] as int
    } else if k == 4 {
        w[4] as int
    } else {
        0
    }
}

/// The weights of minor-piece threats.
pub const MINOR_WEIGHTS: [i32; 5] = [5, 57, 77, 88, 79];

/// The weights of rook threats.
pub const ROOK_WEIGHTS: [i32; 5] = [3, 37, 42, 0, 58];

/// Square `j` as a target of the piece on `i`: a black piece whose threat value is not below
/// zero, reached by the piece's moves, weighted by its kind.
pub open spec fn target_weight(b: Seq<u8>, wp: Seq<u64>, vals: Seq<i8>, black: u64, w: Seq<i32>, i: int, j: int) -> int {
    if vals[j] >= 0 && bit(black, j) && bit(wp[i], j) {
        kind_weight(b[j], w)
    } else {
        0
    }
}

/// Whether the piece on `i` is a white bishop or knight (`minor`), or a rook of either colour.
pub open spec fn threat_piece(b: u8, minor: bool) -> bool {
    if minor {
        byte_is_white_kind(b, 3) || byte_is_white_kind(b, 6)
    } else {
        b & 7u8 == 1
    }
}

/// The minor-piece (`minor`) or rook threat: over the pieces it is about, the weights of their
/// targets.
pub open spec fn piece_threat_total(b: Seq<u8>, wp: Seq<u64>, vals: Seq<i8>, black: u64, minor: bool) -> int {
    sum_squares(|i: int| piece_threat_of(b, wp, vals, black, minor, i), 64)
}

/// What the piece on `i` adds to the minor-piece (`minor`) or rook threat.
pub open spec fn piece_threat_of(b: Seq<u8>, wp: Seq<u64>, vals: Seq<i8>, black: u64, minor: bool, i: int) -> int {
    let w = if minor { MINOR_WEIGHTS@ } else { ROOK_WEIGHTS@ };
    if threat_piece(b[i], minor) {
        sum_squares(|j: int| target_weight(b, wp, vals, black, w, i, j), 64)
    } else {
        0
    }
}

/// What the black queen terms add for a square: for a black queen, the slider, knight and weak
/// protection threats, weighted.
pub open spec fn queen_terms(b: Seq<u8>, wp: Seq<u64>, bdp: Seq<u64>, wf: u64, wdef: u64, bdef: u64, black: u64, q: int) -> int {
    if byte_is_black_kind(b[q], 4) {
        60 * queen_slide_count(wp, wdef, q) + 16 * queen_knight_count(b, wf, bdef, q) + 14 * weak_count(
            b,
            bdp,
            wf,
            black,
            q,
        )
    } else {
        0
    }
}

/// The threat term of white, from the masks it reads: restricted squares, hanging pieces, pawn
/// pushes, safe pawns, the reach of the piece on `king` (a square of the board), the threats on
/// black queens, and minor-piece and rook threats.
pub open spec fn threats_value(b: Seq<u8>, moves: &MotionSet, ms: MaskSet, king: int) -> int {
    let wp = piecewise_raw(moves.white_piecewise_flat);
    let bdp = piecewise_raw(moves.black_defensive_piecewise_flat);
    let wf = moves.white_flat.raw;
    let wdef = moves.white_defensive_flat.raw;
    let bdef = moves.black_defensive_flat.raw;
    let vals = threat_seq(wf, bdef, ms.black.raw);
    7 * restricted_count(moves) + 69 * positive_count(vals) + 48 * pawn_push_total(
        b,
        wp,
        ms.white.raw,
        ms.black.raw,
    ) + 173 * safe_pawn_total(b, moves, ms) + 24 * (if 0 <= king < 64 {
        king_threat_count(moves, ms, king)
    } else {
        0
    }) + sum_squares(
        |q: int| queen_terms(b, wp, bdp, wf, wdef, bdef, ms.black.raw, q),
        64,
    ) + piece_threat_total(b, wp, vals, ms.black.raw, true) + piece_threat_total(b, wp, vals, ms.black.raw, false)
}

/// Sums over `0..n` of two functions that agree there are equal.
pub proof fn lemma_sum_agree(f: spec_fn(int) -> int, g: spec_fn(int) -> int, n: int)
    requires
        forall|i: int| 0 <= i < n ==> #[trigger] f(i) == g(i),
    ensures
        sum_squares(f, n) == sum_squares(g, n),
    decreases n,
{
    if n > 0 {
        lemma_sum_agree(f, g, n - 1);
    }
}

/// A sum over `0..n` of values in `lo..=hi` lies in `n * lo ..= n * hi`.
pub proof fn lemma_sum_bounds(f: spec_fn(int) -> int, n: int, lo: int, hi: int)
    requires
        0 <= n,
        forall|i: int| 0 <= i < n ==> lo <= #[trigger] f(i) <= hi,
    ensures
        n * lo <= sum_squares(f, n) <= n * hi,
    decreases n,
{
    if n > 0 {
        lemma_sum_bounds(f, n - 1, lo, hi);
        assert(n * lo == (n - 1) * lo + lo) by (nonlinear_arith);
        assert(n * hi == (n - 1) * hi + hi) by (nonlinear_arith);
    }
}

/// Whether a mask holds square `j`.
fn has_square(raw: u64, j: usize) -> (r: bool)
    requires
        j < 64,
    ensures
        r == bit(raw, j as int),
{
    (raw >> (j as u64)) & 1u64 == 1u64
}

/// The square `dx` columns and `dy` rows away from `s`, when it is on the board.
fn step(s: usize, dx: i32, dy: i32) -> (r: Option<usize>)
    requires
        s < 64,
        -2 <= dx <= 2,
        -2 <= dy <= 2,
    ensures
        r == (match step_square(s as int, dx as int, dy as int) {
            Some(j) => Some(j as usize),
            None => None::<usize>,
        }),
        r matches Some(j) ==> j < 64,
{
    let x: i32 = (s % 8) as i32 + dx;
    let y: i32 = (s / 8) as i32 + dy;
    if 0 <= x && x < 8 && 0 <= y && y < 8 {
        Some((y * 8 + x) as usize)
    } else {
        None
    }
}

/// Whether a mask holds the square `dx` columns and `dy` rows away from `s`.
fn step_held(raw: u64, s: usize, dx: i32, dy: i32) -> (r: bool)
    requires
        s < 64,
        -2 <= dx <= 2,
        -2 <= dy <= 2,
    ensures
        r == holds_step(raw, s as int, dx as int, dy as int),
{
    match step(s, dx, dy) {
        Some(j) => has_square(raw, j),
        None => false,
    }
}

/// The steps of the `k`-th knight jump.
fn knight_step(k: usize) -> (r: (i32, i32))
    requires
        k < 8,
    ensures
        r.0 == knight_dx(k as int),
        r.1 == knight_dy(k as int),
{
    if k == 0 {
        (1, 2)
    } else if k == 1 {
        (2, 1)
    } else if k == 2 {
        (2, -1)
    } else if k == 3 {
        (1, -2)
    } else if k == 4 {
        (-1, -2)
    } else if k == 5 {
        (-2, -1)
    } else if k == 6 {
        (-2, 1)
    } else {
        (-1, 2)
    }
}

/// The threat value of every square: one for each black piece white reaches, less one for
/// each black piece black covers, walking the squares from 0 up.
pub fn threat_values(moves: &MotionSet, maskset: &MaskSet) -> (r: [i8; 64])
    ensures
        r@ == threat_seq(moves.white_flat.raw, moves.black_defensive_flat.raw, maskset.black.raw),
        forall|i: int|
            0 <= i < 64 ==> r@[i] as int == threat_value(
                moves.white_flat.raw,
                moves.black_defensive_flat.raw,
                maskset.black.raw,
                i,
            ),
{
    let mut vals: [i8; 64] = [0i8; 64];
    let white_threats = moves.white_flat.raw & maskset.black.raw;
    let black_defense = moves.black_defensive_flat.raw & maskset.black.raw;
    let mut i: usize = 0;
    while i < 64
        invariant
            i <= 64,
            white_threats == moves.white_flat.raw & maskset.black.raw,
            black_defense == moves.black_defensive_flat.raw & maskset.black.raw,
            forall|k: int|
                0 <= k < i ==> vals@[k] as int == threat_value(
                    moves.white_flat.raw,
                    moves.black_defensive_flat.raw,
                    maskset.black.raw,
                    k,
                ),
        decreases 64 - i,
    {
        let mut v: i8 = 0;
        if has_square(white_threats, i) {
            v = v + 1;
        }
        if has_square(black_defense, i) {
            v = v - 1;
        }
        vals[i] = v;
        i = i + 1;
    }
    proof {
        assert(vals@ =~= threat_seq(moves.white_flat.raw, moves.black_defensive_flat.raw, maskset.black.raw));
    }
    vals
}

/// The squares whose value is above zero.
fn count_positive(vals: &[i8; 64]) -> (r: u32)
    ensures
        r == positive_count(vals@),
        r <= 64,
{
    let ghost f = |i: int| ind(vals@[i] > 0);
    let mut c: u32 = 0;
    let mut i: usize = 0;
    while i < 64
        invariant
            i <= 64,
            f == (|i: int| ind(vals@[i] > 0)),
            c == sum_squares(f, i as int),
            c <= i,
        decreases 64 - i,
    {
        if vals[i] > 0 {
            c = c + 1;
        }
        i = i + 1;
    }
    c
}

/// The pawn-push targets of the white pawn on `i`.
fn push_sum(moves: &MotionSet, maskset: &MaskSet, i: usize) -> (r: u32)
    requires
        i < 64,
    ensures
        r == sum_squares(
            |j: int|
                push_term(
                    piecewise_raw(moves.white_piecewise_flat),
                    maskset.white.raw,
                    maskset.black.raw,
                    i as int,
                    j,
                ),
            64,
        ),
        r <= 128,
{
    let ghost wp = piecewise_raw(moves.white_piecewise_flat);
    let ghost f = |j: int| push_term(wp, maskset.white.raw, maskset.black.raw, i as int, j);
    let reach = moves.white_piecewise_flat[i].raw;
    let white = maskset.white.raw;
    let black = maskset.black.raw;
    let mut c: u32 = 0;
    let mut j: usize = 0;
    while j < 64
        invariant
            j <= 64,
            i < 64,
            wp == piecewise_raw(moves.white_piecewise_flat),
            reach == wp[i as int],
            white == maskset.white.raw,
            black == maskset.black.raw,
            f == (|j: int| push_term(wp, maskset.white.raw, maskset.black.raw, i as int, j)),
            c == sum_squares(f, j as int),
            c <= 2 * j,
        decreases 64 - j,
    {
        if has_square(reach, j) && (j % 8 == i % 8 || has_square(black, j)) {
            if step_held(white, j, -1, 1) || step_held(white, j, 1, 1) {
                let mut add: u32 = 0;
                if step_held(black, j, -1, -1) {
                    add = add + 1;
                }
                if step_held(black, j, 1, -1) {
                    add = add + 1;
                }
                c = c + add;
            }
        }
        j = j + 1;
    }
    c
}

/// The pawn-push threat: for each white pawn on squares `16..56`, over the squares its moves
/// reach in its own column or on a black piece, those with a white piece diagonally below,
/// counting the black pieces diagonally above them.
pub fn pawn_push_threat(board: &[u8; 64], moves: &MotionSet, maskset: &MaskSet) -> (r: u32)
    ensures
        r == pawn_push_total(board@, piecewise_raw(moves.white_piecewise_flat), maskset.white.raw, maskset.black.raw),
        r <= 128 * 64,
{
    let ghost wp = piecewise_raw(moves.white_piecewise_flat);
    let ghost f = |i: int| pawn_push_count(board@, wp, maskset.white.raw, maskset.black.raw, i);
    let mut c: u32 = 0;
    let mut i: usize = 0;
    while i < 64
        invariant
            i <= 64,
            wp == piecewise_raw(moves.white_piecewise_flat),
            f == (|i: int| pawn_push_count(board@, wp, maskset.white.raw, maskset.black.raw, i)),
            c == sum_squares(f, i as int),
            c <= 128 * i,
        decreases 64 - i,
    {
        if 16 <= i && i < 56 && board[i].is_w_pawn() {
            let add = push_sum(moves, maskset, i);
            c = c + add;
        }
        i = i + 1;
    }
    c
}

/// The number of black pieces whose defensive moves cover square `j`.
fn defenders_of(board: &[u8; 64], moves: &MotionSet, j: usize) -> (r: u32)
    requires
        j < 64,
    ensures
        r == defenders(board@, piecewise_raw(moves.black_defensive_piecewise_flat), j as int),
        r <= 64,
{
    let ghost bdp = piecewise_raw(moves.black_defensive_piecewise_flat);
    let ghost f = |i: int| ind(byte_is_black(board@[i]) && bit(bdp[i], j as int));
    let mut c: u32 = 0;
    let mut i: usize = 0;
    while i < 64
        invariant
            i <= 64,
            j < 64,
            bdp == piecewise_raw(moves.black_defensive_piecewise_flat),
            f == (|i: int| ind(byte_is_black(board@[i]) && bit(bdp[i], j as int))),
            c == sum_squares(f, i as int),
            c <= i,
        decreases 64 - i,
    {
        if !board[i].is_white() && board[i].is_piece() && has_square(moves.black_defensive_piecewise_flat[i].raw, j) {
            c = c + 1;
        }
        i = i + 1;
    }
    c
}

/// The weak protection of the black queen on `queen`: squares that exactly one black piece
/// covers, that the queen covers, that white reaches and that hold a black piece.
pub fn weak_queen_protection(board: &[u8; 64], moves: &MotionSet, maskset: &MaskSet, queen: usize) -> (r: u32)
    requires
        queen < 64,
    ensures
        r == weak_count(
            board@,
            piecewise_raw(moves.black_defensive_piecewise_flat),
            moves.white_flat.raw,
            maskset.black.raw,
            queen as int,
        ),
        r <= 64,
{
    let ghost bdp = piecewise_raw(moves.black_defensive_piecewise_flat);
    let ghost f = |j: int|
        ind(defenders(board@, bdp, j) == 1 && bit(bdp[queen as int], j) && bit(moves.white_flat.raw, j) && bit(
            maskset.black.raw,
            j,
        ));
    let mut c: u32 = 0;
    let mut j: usize = 0;
    while j < 64
        invariant
            j <= 64,
            queen < 64,
            bdp == piecewise_raw(moves.black_defensive_piecewise_flat),
            f == (|j: int|
                ind(defenders(board@, bdp, j) == 1 && bit(bdp[queen as int], j) && bit(moves.white_flat.raw, j)
                    && bit(maskset.black.raw, j))),
            c == sum_squares(f, j as int),
            c <= j,
        decreases 64 - j,
    {
        if has_square(moves.black_defensive_piecewise_flat[queen].raw, j) && has_square(moves.white_flat.raw, j)
            && has_square(maskset.black.raw, j) {
            if defenders_of(board, moves, j) == 1 {
                c = c + 1;
            }
        }
        j = j + 1;
    }
    c
}

/// The white knights a knight's jump away from square `a`.
fn knights_near(board: &[u8; 64], a: usize) -> (r: u32)
    requires
        a < 64,
    ensures
        r == knights_around(board@, a as int),
        r <= 8,
{
    let ghost f = |k: int|
        ind(
            match step_square(a as int, knight_dx(k), knight_dy(k)) {
                Some(t) => byte_is_white_kind(board@[t], 6),
                None => false,
            },
        );
    let mut c: u32 = 0;
    let mut k: usize = 0;
    while k < 8
        invariant
            k <= 8,
            a < 64,
            f == (|k: int|
                ind(
                    match step_square(a as int, knight_dx(k), knight_dy(k)) {
                        Some(t) => byte_is_white_kind(board@[t], 6),
                        None => false,
                    },
                )),
            c == sum_squares(f, k as int),
            c <= k,
        decreases 8 - k,
    {
        let (dx, dy) = knight_step(k);
        match step(a, dx, dy) {
            Some(t) => {
                if board[t].is_w_knight() {
                    c = c + 1;
                }
            },
            None => {},
        }
        k = k + 1;
    }
    c
}

/// The knight threat on the black queen on `queen`: over the knight squares of the queen that
/// white reaches and black does not cover, the white knights a jump away from them.
pub fn queen_knight_threat(board: &[u8; 64], moves: &MotionSet, queen: usize) -> (r: u32)
    requires
        queen < 64,
    ensures
        r == queen_knight_count(board@, moves.white_flat.raw, moves.black_defensive_flat.raw, queen as int),
        r <= 64,
{
    let ghost f = |k: int|
        queen_knight_term(board@, moves.white_flat.raw, moves.black_defensive_flat.raw, queen as int, k);
    let mut c: u32 = 0;
    let mut k: usize = 0;
    while k < 8
        invariant
            k <= 8,
            queen < 64,
            f == (|k: int|
                queen_knight_term(board@, moves.white_flat.raw, moves.black_defensive_flat.raw, queen as int, k)),
            c == sum_squares(f, k as int),
            c <= 8 * k,
        decreases 8 - k,
    {
        let (dx, dy) = knight_step(k);
        match step(queen, dx, dy) {
            Some(a) => {
                if has_square(moves.white_flat.raw, a) && !has_square(moves.black_defensive_flat.raw, a) {
                    let n = knights_near(board, a);
                    c = c + n;
                }
            },
            None => {},
        }
        k = k + 1;
    }
    c
}

/// The squares that the moves of the piece on `k` reach and white covers.
fn covered_reach(moves: &MotionSet, k: usize) -> (r: u32)
    requires
        k < 64,
    ensures
        r == sum_squares(
            |j: int| ind(bit(piecewise_raw(moves.white_piecewise_flat)[k as int], j) && bit(moves.white_defensive_flat.raw, j)),
            64,
        ),
        r <= 64,
{
    let ghost wp = piecewise_raw(moves.white_piecewise_flat);
    let ghost f = |j: int| ind(bit(wp[k as int], j) && bit(moves.white_defensive_flat.raw, j));
    let reach = moves.white_piecewise_flat[k].raw;
    let mut c: u32 = 0;
    let mut j: usize = 0;
    while j < 64
        invariant
            j <= 64,
            k < 64,
            wp == piecewise_raw(moves.white_piecewise_flat),
            reach == wp[k as int],
            f == (|j: int| ind(bit(wp[k as int], j) && bit(moves.white_defensive_flat.raw, j))),
            c == sum_squares(f, j as int),
            c <= j,
        decreases 64 - j,
    {
        if has_square(reach, j) && has_square(moves.white_defensive_flat.raw, j) {
            c = c + 1;
        }
        j = j + 1;
    }
    c
}

/// The slider threat on the black queen on `queen`: over the white pieces whose moves reach
/// the queen, the squares their moves reach that white covers.
pub fn queen_slide_threat(moves: &MotionSet, queen: usize) -> (r: u32)
    requires
        queen < 64,
    ensures
        r == queen_slide_count(piecewise_raw(moves.white_piecewise_flat), moves.white_defensive_flat.raw, queen as int),
        r <= 64 * 64,
{
    let ghost wp = piecewise_raw(moves.white_piecewise_flat);
    let ghost f = |k: int| slide_term(wp, moves.white_defensive_flat.raw, queen as int, k);
    let mut c: u32 = 0;
    let mut k: usize = 0;
    while k < 64
        invariant
            k <= 64,
            queen < 64,
            wp == piecewise_raw(moves.white_piecewise_flat),
            f == (|k: int| slide_term(wp, moves.white_defensive_flat.raw, queen as int, k)),
            c == sum_squares(f, k as int),
            c <= 64 * k,
        decreases 64 - k,
    {
        if has_square(moves.white_piecewise_flat[k].raw, queen) {
            let n = covered_reach(moves, k);
            proof {
                lemma_sum_agree(
                    |j: int| ind(bit(piecewise_raw(moves.white_piecewise_flat)[k as int], j) && bit(moves.white_defensive_flat.raw, j)),
                    |j: int| ind(bit(wp[k as int], j) && bit(moves.white_defensive_flat.raw, j)),
                    64,
                );
            }
            c = c + n;
        }
        k = k + 1;
    }
    c
}

/// The weight of a black piece's kind from a table: pawn, knight, bishop, rook, queen.
fn weight_of(b: u8, w: &[i32; 5]) -> (r: i32)
    ensures
        r == kind_weight(b, w@),
{
    let k = b & 7u8;
    if k == 2 {
        w[0]
    } else if k == 6 {
        w[1]
    } else if k == 3 {
        w[2]
    } else if k == 1 {
        w[3]
    } else if k == 4 {
        w[4]
    } else {
        0
    }
}

/// The weighted targets of the piece on `i`.
fn target_sum(board: &[u8; 64], moves: &MotionSet, maskset: &MaskSet, vals: &[i8; 64], minor: bool, i: usize) -> (r: i32)
    requires
        i < 64,
    ensures
        r == sum_squares(
            |j: int|
                target_weight(
                    board@,
                    piecewise_raw(moves.white_piecewise_flat),
                    vals@,
                    maskset.black.raw,
                    if minor { MINOR_WEIGHTS@ } else { ROOK_WEIGHTS@ },
                    i as int,
                    j,
                ),
            64,
        ),
        0 <= r <= 64 * 88,
{
    let w: [i32; 5] = if minor { MINOR_WEIGHTS } else { ROOK_WEIGHTS };
    let ghost wp = piecewise_raw(moves.white_piecewise_flat);
    let ghost f = |j: int| target_weight(board@, wp, vals@, maskset.black.raw, w@, i as int, j);
    let reach = moves.white_piecewise_flat[i].raw;
    let mut c: i32 = 0;
    let mut j: usize = 0;
    while j < 64
        invariant
            j <= 64,
            i < 64,
            wp == piecewise_raw(moves.white_piecewise_flat),
            reach == wp[i as int],
            w@ == (if minor { MINOR_WEIGHTS@ } else { ROOK_WEIGHTS@ }),
            f == (|j: int| target_weight(board@, wp, vals@, maskset.black.raw, w@, i as int, j)),
            c == sum_squares(f, j as int),
            0 <= c <= 88 * j,
        decreases 64 - j,
    {
        if vals[j] >= 0 && has_square(maskset.black.raw, j) && has_square(reach, j) {
            let add = weight_of(board[j], &w);
            c = c + add;
        }
        j = j + 1;
    }
    c
}

/// The minor-piece (`minor`) or rook threat over the given threat values.
fn piece_threat(board: &[u8; 64], moves: &MotionSet, maskset: &MaskSet, vals: &[i8; 64], minor: bool) -> (r: i32)
    ensures
        r == piece_threat_total(board@, piecewise_raw(moves.white_piecewise_flat), vals@, maskset.black.raw, minor),
        0 <= r <= 64 * 64 * 88,
{
    let ghost wp = piecewise_raw(moves.white_piecewise_flat);
    let ghost f = |i: int| piece_threat_of(board@, wp, vals@, maskset.black.raw, minor, i);
    let mut c: i32 = 0;
    let mut i: usize = 0;
    while i < 64
        invariant
            i <= 64,
            wp == piecewise_raw(moves.white_piecewise_flat),
            f == (|i: int| piece_threat_of(board@, wp, vals@, maskset.black.raw, minor, i)),
            c == sum_squares(f, i as int),
            0 <= c <= 5632 * i,
        decreases 64 - i,
    {
        let counts = if minor {
            board[i].is_piece() && (board[i].is_w_bishop() || board[i].is_w_knight())
        } else {
            board[i].is_piece() && board[i].is_rook()
        };
        proof {
            if minor {
                assert(counts == threat_piece(board@[i as int], minor)) by {
                    if byte_is_white_kind(board@[i as int], 3) || byte_is_white_kind(board@[i as int], 6) {
                        assert(byte_is_piece(board@[i as int]));
                    }
                }
            } else {
                assert(counts == threat_piece(board@[i as int], minor)) by {
                    if board@[i as int] & 7u8 == 1 {
                        assert(byte_is_piece(board@[i as int]));
                    }
                }
            }
        }
        if counts {
            let add = target_sum(board, moves, maskset, vals, minor, i);
            assert(0 <= add <= 5632);
            c = c + add;
        }
        i = i + 1;
    }
    c
}

/// The minor-piece threat: for each white bishop or knight, the black pieces its moves reach
/// whose threat value is not below zero, weighted by kind (pawn 5, knight 57, bishop 77, rook
/// 88, queen 79).
pub fn minor_threat(board: &[u8; 64], moves: &MotionSet, maskset: &MaskSet, threats: &[i8; 64]) -> (r: i32)
    ensures
        r == piece_threat_total(board@, piecewise_raw(moves.white_piecewise_flat), threats@, maskset.black.raw, true),
        0 <= r <= 64 * 64 * 88,
{
    piece_threat(board, moves, maskset, threats, true)
}

/// The rook threat: for each rook (of either colour), the black pieces its moves (as white's
/// moves from its square) reach whose threat value is not below zero, weighted by kind (pawn 3,
/// knight 37, bishop 42, rook 0, queen 58).
pub fn rook_threat(board: &[u8; 64], moves: &MotionSet, maskset: &MaskSet, threats: &[i8; 64]) -> (r: i32)
    ensures
        r == piece_threat_total(board@, piecewise_raw(moves.white_piecewise_flat), threats@, maskset.black.raw, false),
        0 <= r <= 64 * 64 * 88,
{
    piece_threat(board, moves, maskset, threats, false)
}

/// The threats on the black queen on `q`, weighted: slider 60, knight 16, weak protection 14.
fn queen_threats(board: &[u8; 64], moves: &MotionSet, maskset: &MaskSet, q: usize) -> (r: i32)
    requires
        q < 64,
        byte_is_black_kind(board@[q as int], 4),
    ensures
        r == queen_terms(
            board@,
            piecewise_raw(moves.white_piecewise_flat),
            piecewise_raw(moves.black_defensive_piecewise_flat),
            moves.white_flat.raw,
            moves.white_defensive_flat.raw,
            moves.black_defensive_flat.raw,
            maskset.black.raw,
            q as int,
        ),
        0 <= r <= 60 * 4096 + 16 * 64 + 14 * 64,
{
    let slide = queen_slide_threat(moves, q);
    let knight = queen_knight_threat(board, moves, q);
    let weak = weak_queen_protection(board, moves, maskset, q);
    60 * (slide as i32) + 16 * (knight as i32) + 14 * (weak as i32)
}

/// The threat term of white: 7 per restricted square, 69 per hanging piece, 48 per pawn-push
/// threat, 173 per safe-pawn threat, 24 per piece the king threatens, the threats on each black
/// queen, and the minor-piece and rook threats.
pub fn threats(board: &[u8; 64], moves: &MotionSet, maskset: &MaskSet, king_index: usize) -> (r: i32)
    requires
        king_index < 64,
    ensures
        r == threats_value(board@, moves, *maskset, king_index as int),
        0 <= r <= 20_000_000,
{
    let ghost wp = piecewise_raw(moves.white_piecewise_flat);
    let ghost bdp = piecewise_raw(moves.black_defensive_piecewise_flat);
    let threat_vals = threat_values(moves, maskset);
    let r_count = restricted_threat(moves);
    let h_count = count_positive(&threat_vals);
    let push_count = pawn_push_threat(board, moves, maskset);
    let safe_count = pawn_safe_threat(board, moves, maskset);
    let king_count = king_threat(moves, maskset, king_index);
    proof {
        lemma_popcount_bound(moves.white_flat.raw & (moves.black_defensive_flat.raw | moves.black_flat.raw));
        lemma_popcount_bound(moves.white_piecewise_flat@[king_index as int].raw & maskset.black.raw & !moves.black_defensive_flat.raw);
    }
    let restricted = 7 * (r_count as i32);
    let hanging = 69 * (h_count as i32);
    let pawn_push = 48 * (push_count as i32);
    let safe_pawn = 173 * (safe_count as i32);
    let king = 24 * (king_count as i32);
    let ghost fq = |q: int|
        queen_terms(
            board@,
            wp,
            bdp,
            moves.white_flat.raw,
            moves.white_defensive_flat.raw,
            moves.black_defensive_flat.raw,
            maskset.black.raw,
            q,
        );
    let mut queens: i32 = 0;
    let mut q: usize = 0;
    while q < 64
        invariant
            q <= 64,
            wp == piecewise_raw(moves.white_piecewise_flat),
            bdp == piecewise_raw(moves.black_defensive_piecewise_flat),
            fq == (|q: int|
                queen_terms(
                    board@,
                    wp,
                    bdp,
                    moves.white_flat.raw,
                    moves.white_defensive_flat.raw,
                    moves.black_defensive_flat.raw,
                    maskset.black.raw,
                    q,
                )),
            queens == sum_squares(fq, q as int),
            0 <= queens <= 247_680 * q,
        decreases 64 - q,
    {
        if board[q].is_b_queen() {
            let add = queen_threats(board, moves, maskset, q);
            queens = queens + add;
        }
        q = q + 1;
    }
    let minor = minor_threat(board, moves, maskset, &threat_vals);
    let rook = rook_threat(board, moves, maskset, &threat_vals);
    restricted + hanging + pawn_push + safe_pawn + king + queens + minor + rook
}

} // verus!
