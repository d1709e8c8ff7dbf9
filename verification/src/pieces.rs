use vstd::prelude::*;
use crate::boardarray::{BoardArray, flipped_board};
use crate::chessbyte::{ChessByte, byte_is_white, byte_is_black, byte_is_piece, byte_is_white_kind};
use crate::material::sum_squares;
use crate::mobility::{grid_sum, column_sum, mobility, mobility_of};
use crate::motion::MotionSet;
use crate::pawn::{is_backwards, backwards, w_pawn};
use crate::piece::PieceByte;

verus! {

// Piece placement, from white's side.

/// Bonus of a minor piece behind a white pawn.
pub const WEIGHT_MINOR_BEHIND_PAWN: i32 = 18;
/// Weight of a bishop's same-colour pawns.
pub const WEIGHT_BISHOP_PAWNS: i32 = -3;
/// Weight of black pawns on a bishop's diagonals.
pub const WEIGHT_BISHOP_XRAY_PAWNS: i32 = -4;
/// Bonus of a queen in the column.
pub const WEIGHT_ROOK_QUEEN_FILE: i32 = 6;
/// Bonus of a closed, half-open and open column.
pub const WEIGHT_ROOK_OPEN_FILE: [i32; 3] = [0, 19, 48];
/// Outpost bonuses: none, reachable, lone knight on the rim, bishop, knight.
pub const WEIGHT_OUTPOST: [i32; 5] = [0, 31, -7, 30, 56];
/// Bonus of a column leading to the black king's ring.
pub const WEIGHT_ROOK_KING_RING: i32 = 16;
/// Bonus of a diagonal leading to the black king's ring.
pub const WEIGHT_BISHOP_KING_RING: i32 = 24;
/// Weight of a rook trapped on the king's side.
pub const WEIGHT_TRAPPED_ROOK: i32 = -55;
/// Bonus of a bishop on an open long diagonal.
pub const WEIGHT_LONG_DIAG_BISHOP: i32 = 45;
/// Weight of a queen exposed to a slider behind one empty square.
pub const WEIGHT_WEAK_QUEEN: i32 = -56;
/// Weight of a queen in the black half.
pub const WEIGHT_QUEEN_INFILTRATION: i32 = -2;
/// Weight per square of distance of a knight from the white king.
pub const WEIGHT_KING_PROTECTOR_HORSE: i32 = -8;
/// Weight per square of distance of a bishop from the white king.
pub const WEIGHT_KING_PROTECTOR_BISHOP: i32 = -6;

/// The absolute difference of two integers.
pub open spec fn abs_diff(a: int, b: int) -> int {
    if a >= b {
        a - b
    } else {
        b - a
    }
}

/// The square visited at position `p` of a column-by-column scan.
pub open spec fn column_major(p: int) -> int {
    (p % 8) * 8 + p / 8
}

/// Whether the black king on offset `y * 8 + x` of `index` sits in the ring that counts: the
/// offset in range, and each of its coordinates within one step or on the board's edge.
pub open spec fn ring_hit(b: Seq<u8>, index: int, x: int, y: int) -> bool {
    let i = y * 8 + x;
    let xi = index % 8;
    let yi = index / 8;
    &&& i >= 0
    &&& index + i < 64
    &&& b[index + i] & 7u8 == 5
    &&& byte_is_black(b[index + i])
    &&& ((-1 <= x && x <= 1) || xi + x == 0 || xi + x == 7)
    &&& ((-1 <= y && y <= 1) || yi + y == 0 || yi + y == 7)
}

/// Whether square `index` is in the black king's ring: a black king on an offset within two
/// columns and two rows (seen as an index offset), unless, when not `full`, black pawns stand on
/// squares `index - 7` and `index - 9`.
pub open spec fn in_king_ring(b: Seq<u8>, index: int, full: bool) -> bool {
    if !full && index >= 9 && b_pawn_kind(b[index - 7]) && b_pawn_kind(b[index - 9]) {
        false
    } else {
        exists|x: int, y: int| -2 <= x <= 2 && -2 <= y <= 2 && #[trigger] ring_hit(b, index, x, y)
    }
}

/// A pawn-kind byte without the white bit that holds a piece.
pub open spec fn b_pawn_kind(v: u8) -> bool {
    v & 7u8 == 2 && byte_is_black(v)
}

/// A pawn-kind byte with the white bit.
pub open spec fn w_pawn_kind(v: u8) -> bool {
    v & 7u8 == 2 && byte_is_white(v)
}

/// Twice the number of attacks on the black king's ring that the piece on `index` makes: none
/// for a king; for a pawn away from the edge columns, per side one (half when a white pawn
/// stands two columns away on that side) when its square is in the ring; for another piece
/// two when any square is in the ring (without the pawn exception).
pub open spec fn king_attackers_x2(b: Seq<u8>, index: int) -> int {
    let xi = index % 8;
    let yi = index / 8;
    if b[index] & 7u8 == 5 {
        0
    } else if b[index] & 7u8 == 2 {
        if xi > 1 && xi < 6 && in_king_ring(b, index, true) {
            (if w_pawn_kind(b[yi * 8 + xi - 2]) { 1int } else { 2int }) + (if w_pawn_kind(b[yi * 8 + xi + 2]) {
                1int
            } else {
                2int
            })
        } else {
            0
        }
    } else if exists|i: int| 0 <= i < 64 && #[trigger] in_king_ring(b, i, false) {
        2
    } else {
        0
    }
}

/// Whether a square is in the black king's ring, as `king_ring` tells.
fn king_ring(board: &[u8; 64], index: usize, full: bool) -> (r: bool)
    requires
        index < 64,
    ensures
        r == in_king_ring(board@, index as int, full),
{
    if !full {
        if index >= 9 {
            if board[index - 7].is_pawn() && board[index - 7].is_black() && board[index - 9].is_pawn()
                && board[index - 9].is_black() {
                return false;
            }
        }
    }
    let xi: i32 = (index % 8) as i32;
    let yi: i32 = (index / 8) as i32;
    let mut x: i32 = -2;
    while x <= 2
        invariant
            -2 <= x <= 3,
            index < 64,
            !(!full && index >= 9 && b_pawn_kind(board@[index - 7]) && b_pawn_kind(board@[index - 9])),
            xi == index % 8,
            yi == index / 8,
            forall|a: int, c: int| -2 <= a < x && -2 <= c <= 2 ==> !#[trigger] ring_hit(board@, index as int, a, c),
        decreases 3 - x,
    {
        let mut y: i32 = -2;
        while y <= 2
            invariant
                -2 <= x <= 2,
                -2 <= y <= 3,
                index < 64,
                !(!full && index >= 9 && b_pawn_kind(board@[index - 7]) && b_pawn_kind(board@[index - 9])),
                xi == index % 8,
                yi == index / 8,
                forall|a: int, c: int| -2 <= a < x && -2 <= c <= 2 ==> !#[trigger] ring_hit(board@, index as int, a, c),
                forall|c: int| -2 <= c < y ==> !#[trigger] ring_hit(board@, index as int, x as int, c),
            decreases 3 - y,
        {
            let i: i32 = y * 8 + x;
            if i < 0 {
                y = y + 1;
                continue;
            }
            if index + (i as usize) < 64 {
                let sq = index + i as usize;
                if board[sq].is_king() && board[sq].is_black() {
                    if x >= -1 && x <= 1 || xi + x == 0 || xi + x == 7 {
                        if y >= -1 && y <= 1 || yi + y == 0 || yi + y == 7 {
                            assert(ring_hit(board@, index as int, x as int, y as int));
                            assert(in_king_ring(board@, index as int, full));
                            return true;
                        }
                    }
                }
            }
            y = y + 1;
        }
        x = x + 1;
    }
    false
}

/// Twice the attacks of the piece on `index` on the black king's ring.
fn count_king_attackers(board: &[u8; 64], index: usize) -> (r: i32)
    requires
        index < 64,
    ensures
        r == king_attackers_x2(board@, index as int),
{
    if board[index].is_king() {
        return 0;
    }
    let xi = index % 8;
    let yi = index / 8;
    if board[index].is_pawn() {
        let mut value: i32 = 0;
        if xi > 1 && xi < 6 {
            let is = board[yi * 8 + xi - 2].is_pawn() && board[yi * 8 + xi - 2].is_white();
            if king_ring(board, index, true) {
                value = value + if is {
                    1
                } else {
                    2
                };
            }
            let is2 = board[yi * 8 + xi + 2].is_pawn() && board[yi * 8 + xi + 2].is_white();
            if king_ring(board, index, true) {
                value = value + if is2 {
                    1
                } else {
                    2
                };
            }
        }
        return value;
    }
    let mut i: usize = 0;
    while i < 64
        invariant
            i <= 64,
            index < 64,
            !(board@[index as int] & 7u8 == 5),
            !(board@[index as int] & 7u8 == 2),
            forall|j: int| 0 <= j < i ==> !#[trigger] in_king_ring(board@, j, false),
        decreases 64 - i,
    {
        if king_ring(board, i, false) {
            assert(in_king_ring(board@, i as int, false));
            return 2;
        }
        i = i + 1;
    }
    0
}

/// The number of white pawns on square `index + 9` (away from the edge columns) and
/// `index + 7` (away from the first column).
pub open spec fn pawn_attack_count(b: Seq<u8>, index: int) -> int {
    (if index + 9 < 64 && index % 8 < 7 && index % 8 > 0 && w_pawn(b[index + 9]) { 1int } else { 0int })
        + (if index + 7 < 64 && index % 8 > 0 && w_pawn(b[index + 7]) { 1int } else { 0int })
}

/// The bishop-pawns term of a bishop on `index`: -3 times the number of white pawns on squares
/// of its colour times the number of white pawns in the middle columns behind a piece plus
/// one when no white pawn guards it.
pub open spec fn bishop_pawns_value(b: Seq<u8>, index: int) -> int {
    let c = (index % 8 + index / 8) % 2;
    let value = grid_sum(|s: int| if w_pawn_kind(b[s]) && c == (s % 8 + s / 8) % 2 { 1int } else { 0int }, 8);
    let blocked = grid_sum(
        |s: int|
            if w_pawn_kind(b[s]) && s % 8 > 1 && s % 8 < 6 && s / 8 != 0 && byte_is_piece(b[s - 8]) {
                1int
            } else {
                0int
            },
        8,
    );
    let pawnatt = if pawn_attack_count(b, index) > 0 { 0int } else { 1int };
    -3 * (value * (blocked + pawnatt))
}

/// The number of black pawns on the diagonals through `index`.
pub open spec fn xray_pawns(b: Seq<u8>, index: int) -> int {
    sum_squares(
        |i: int| if b_pawn_kind(b[i]) && abs_diff(index as int % 8, i % 8) == abs_diff(index as int / 8, i / 8) { 1int } else { 0int },
        64,
    )
}

/// Whether a queen stands in the column of `index`.
pub open spec fn queen_in_column(b: Seq<u8>, index: int) -> bool {
    exists|y: int| 0 <= y < 8 && #[trigger] b[y * 8 + index % 8] & 7u8 == 4
}

/// The open-column bonus of the column of `index`: 0 with a white pawn in it, 19 with only
/// black pawns, 48 with none.
pub open spec fn open_file_value(b: Seq<u8>, index: int) -> int {
    let x = index % 8;
    if exists|y: int| 0 <= y < 8 && #[trigger] w_pawn_kind(b[y * 8 + x]) {
        0
    } else if exists|y: int| 0 <= y < 8 && #[trigger] (b[y * 8 + x] & 7u8) == 2 {
        19
    } else {
        48
    }
}

/// Whether the black pawn beside column `xi` on row `y`, on side `side` (-1 or 1), can come to
/// attack square `index`: it stands on the row before, or a white pawn stands below it; and,
/// on the turned board, it is not backward.
pub open spec fn span_hit(b: Seq<u8>, index: int, y: int, side: int) -> bool {
    let yi = index / 8;
    let xi = index % 8;
    let col = xi + side;
    let yin = (y + 1) * 8;
    &&& (if side < 0 { xi > 0 } else { xi < 7 })
    &&& b_pawn_kind(b[y * 8 + col])
    &&& yi > 0
    &&& (y == yi - 1 || (yin < 64 && w_pawn_kind(b[yin + col])))
    &&& !backwards(flipped_board(b), (7 - y) * 8 + col)
}

/// Whether a black pawn of row `y` beside `index` can come to attack it.
pub open spec fn span_row(b: Seq<u8>, index: int, y: int) -> bool {
    span_hit(b, index, y, -1) || span_hit(b, index, y, 1)
}

/// Whether a black pawn on a row before `index`, in a column beside it, can come to attack it.
pub open spec fn attacks_span(b: Seq<u8>, index: int) -> bool {
    exists|y: int| 0 <= y < index / 8 && #[trigger] span_row(b, index, y)
}

/// Whether square `index` is an outpost: on ranks 4 to 6, guarded by a white pawn on square
/// `index + 9` or `index + 7` (not across an edge) that no black pawn can come to attack.
pub open spec fn outpost_square(b: Seq<u8>, index: int) -> bool {
    let rank = 8 - index / 8;
    &&& 4 <= rank <= 6
    &&& !attacks_span(b, index)
    &&& ((index % 8 != 7 && w_pawn_kind(b[index + 9])) || (index % 8 != 0 && w_pawn_kind(b[index + 7])))
}

/// Whether square `s` holds a black piece other than a pawn.
pub open spec fn black_officer(b: Seq<u8>, s: int) -> bool {
    byte_is_piece(b[s]) && !(b[s] & 7u8 == 2) && byte_is_black(b[s])
}

/// Whether square `s` is a knight's jump from column `xi`, row `yi`.
pub open spec fn knight_jump(xi: int, yi: int, s: int) -> bool {
    (abs_diff(xi, s % 8) == 2 && abs_diff(yi, s / 8) == 1) || (abs_diff(xi, s % 8) == 1 && abs_diff(yi, s / 8) == 2)
}

/// Whether square `s` lies on the same half (columns 0..4 or 4..8) as column `xi`.
pub open spec fn same_half(xi: int, s: int) -> bool {
    (s % 8 < 4 && xi < 4) || (s % 8 >= 4 && xi >= 4)
}

/// The outpost bonus of the minor piece on `index`: 0 off an outpost; for a knight on the
/// side columns with no black piece other than a pawn a knight's jump away and at most one on
/// its half of the board, -7; else 56 for a knight and 30 for a bishop.
pub open spec fn outpost_value(b: Seq<u8>, index: int) -> int {
    let xi = index % 8;
    let yi = index / 8;
    let knight = b[index] & 7u8 == 6;
    let ea = exists|s: int| 0 <= s < 64 && #[trigger] black_officer(b, s) && knight_jump(xi, yi, s);
    let count = grid_sum(|s: int| if black_officer(b, s) && same_half(xi, s) { 1int } else { 0int }, 8);
    if !outpost_square(b, index) {
        0
    } else if knight && (xi < 2 || xi > 5) && !ea && count <= 1 {
        -7
    } else if knight {
        56
    } else {
        30
    }
}

fn mbehind_pawn(board: &[u8; 64], index: usize) -> (r: i32)
    requires
        index < 64,
    ensures
        r == (if index > 7 && byte_is_white(board@[index - 8]) && board@[index - 8] & 7u8 == 2 { 18int } else { 0int }),
{
    if index > 7 && board[index - 8].is_white() && board[index - 8].is_pawn() {
        WEIGHT_MINOR_BEHIND_PAWN
    } else {
        0
    }
}

fn pawn_attack(board: &[u8; 64], index: usize) -> (r: i32)
    requires
        index < 64,
    ensures
        r == pawn_attack_count(board@, index as int),
{
    let mut value: i32 = 0;
    if index + 9 < 64 && index % 8 < 7 && index % 8 > 0 && board[index + 9].get_piece() == PieceByte::PAWN
        && board[index + 9].is_white() {
        value = value + 1;
    }
    if index + 7 < 64 && index % 8 > 0 && board[index + 7].get_piece() == PieceByte::PAWN
        && board[index + 7].is_white() {
        value = value + 1;
    }
    value
}

fn bishop_pawns(board: &[u8; 64], index: usize) -> (r: i32)
    requires
        index < 64,
    ensures
        r == bishop_pawns_value(board@, index as int),
        -12480 <= r <= 0,
{
    let c = (index % 8 + index / 8) % 2;
    let ghost fv = |s: int| if w_pawn_kind(board@[s]) && c == (s % 8 + s / 8) % 2 { 1int } else { 0int };
    let ghost fb = |s: int|
        if w_pawn_kind(board@[s]) && s % 8 > 1 && s % 8 < 6 && s / 8 != 0 && byte_is_piece(board@[s - 8]) {
            1int
        } else {
            0int
        };
    let mut value: i32 = 0;
    let mut blocked: i32 = 0;
    let mut x: usize = 0;
    while x < 8
        invariant
            x <= 8,
            c == (index % 8 + index / 8) % 2,
            fv == (|s: int| if w_pawn_kind(board@[s]) && c == (s % 8 + s / 8) % 2 { 1int } else { 0int }),
            fb == (|s: int|
                if w_pawn_kind(board@[s]) && s % 8 > 1 && s % 8 < 6 && s / 8 != 0 && byte_is_piece(board@[s - 8]) {
                    1int
                } else {
                    0int
                }),
            value == grid_sum(fv, x as int),
            blocked == grid_sum(fb, x as int),
            0 <= value <= x * 8,
            0 <= blocked <= x * 8,
        decreases 8 - x,
    {
        let mut y: usize = 0;
        let ghost v0 = value;
        let ghost b0 = blocked;
        while y < 8
            invariant
                y <= 8,
                x < 8,
                c == (index % 8 + index / 8) % 2,
                fv == (|s: int| if w_pawn_kind(board@[s]) && c == (s % 8 + s / 8) % 2 { 1int } else { 0int }),
                fb == (|s: int|
                    if w_pawn_kind(board@[s]) && s % 8 > 1 && s % 8 < 6 && s / 8 != 0 && byte_is_piece(board@[s - 8]) {
                        1int
                    } else {
                        0int
                    }),
                v0 == grid_sum(fv, x as int),
                b0 == grid_sum(fb, x as int),
                0 <= v0 <= x * 8,
                0 <= b0 <= x * 8,
                value == v0 + column_sum(fv, x as int, y as int),
                blocked == b0 + column_sum(fb, x as int, y as int),
                0 <= value - v0 <= y,
                0 <= blocked - b0 <= y,
            decreases 8 - y,
        {
            proof {
                let s = (y * 8 + x) as int;
                assert(s % 8 == x && s / 8 == y);
            }
            if board[y * 8 + x].is_white() && board[y * 8 + x].is_pawn() {
                if c == (x + y) % 2 {
                    value = value + 1;
                }
                if x > 1 && x < 6 && y != 0 && board[(y - 1) * 8 + x].is_piece() {
                    blocked = blocked + 1;
                }
            }
            y = y + 1;
        }
        x = x + 1;
    }
    let pawnatt: i32 = if pawn_attack(board, index) > 0 {
        0
    } else {
        1
    };
    assert(0 <= value * (blocked + pawnatt) <= 64 * 65) by (nonlinear_arith)
        requires
            0 <= value <= 64,
            0 <= blocked + pawnatt <= 65,
    ;
    WEIGHT_BISHOP_PAWNS * (value * (blocked + pawnatt))
}

fn bishop_xray(board: &[u8; 64], index: usize) -> (r: i32)
    requires
        index < 64,
    ensures
        r == -4 * xray_pawns(board@, index as int),
        -256 <= r <= 0,
{
    let ghost f = |i: int| if b_pawn_kind(board@[i]) && abs_diff(index as int % 8, i % 8) == abs_diff(index as int / 8, i / 8) { 1int } else { 0int };
    let mut count: i32 = 0;
    let xi = index % 8;
    let yi = index / 8;
    let mut i: usize = 0;
    while i < 64
        invariant
            i <= 64,
            xi == index % 8,
            yi == index / 8,
            f == (|i: int| if b_pawn_kind(board@[i]) && abs_diff(index as int % 8, i % 8) == abs_diff(index as int / 8, i / 8) { 1int } else { 0int }),
            count == sum_squares(f, i as int),
            0 <= count <= i,
        decreases 64 - i,
    {
        let piece = board[i];
        let dx: usize = if xi >= i % 8 {
            xi - i % 8
        } else {
            i % 8 - xi
        };
        let dy: usize = if yi >= i / 8 {
            yi - i / 8
        } else {
            i / 8 - yi
        };
        if piece.is_black() && piece.is_pawn() && dx == dy {
            count = count + 1;
        }
        i = i + 1;
    }
    WEIGHT_BISHOP_XRAY_PAWNS * count
}

fn rook_queen_file(board: &[u8; 64], index: usize) -> (r: i32)
    requires
        index < 64,
    ensures
        r == (if queen_in_column(board@, index as int) { 6int } else { 0int }),
{
    let xi = index % 8;
    let mut y: usize = 0;
    while y < 8
        invariant
            y <= 8,
            xi == index % 8,
            forall|z: int| 0 <= z < y ==> !(#[trigger] board@[z * 8 + index % 8] & 7u8 == 4),
        decreases 8 - y,
    {
        if board[y * 8 + xi].is_queen() {
            return WEIGHT_ROOK_QUEEN_FILE;
        }
        y = y + 1;
    }
    0
}

fn rook_open_file(board: &[u8; 64], index: usize) -> (r: i32)
    requires
        index < 64,
    ensures
        r == open_file_value(board@, index as int),
{
    let xi = index % 8;
    let mut open: usize = 1;
    let mut y: usize = 0;
    while y < 8
        invariant
            y <= 8,
            xi == index % 8,
            forall|z: int| 0 <= z < y ==> !#[trigger] w_pawn_kind(board@[z * 8 + xi]),
            (open == 0) == exists|z: int| 0 <= z < y && #[trigger] (board@[z * 8 + xi] & 7u8) == 2,
            open <= 1,
        decreases 8 - y,
    {
        if board[y * 8 + xi].is_pawn() {
            if board[y * 8 + xi].is_white() {
                assert(w_pawn_kind(board@[y * 8 + xi]));
                return 0;
            }
            open = 0;
        }
        y = y + 1;
    }
    WEIGHT_ROOK_OPEN_FILE[open + 1]
}

fn pawn_attacks_span(board: &[u8; 64], index: usize) -> (r: bool)
    requires
        index < 64,
    ensures
        r == attacks_span(board@, index as int),
{
    let flipped = board.flipped();
    let yi = index / 8;
    let xi = index % 8;
    let mut y: usize = 0;
    while y < yi
        invariant
            y <= yi,
            yi == index / 8,
            xi == index % 8,
            index < 64,
            flipped@ == flipped_board(board@),
            forall|z: int| 0 <= z < y ==> !#[trigger] span_row(board@, index as int, z),
        decreases yi - y,
    {
        if xi > 0 && board[y * 8 + xi - 1].is_pawn() && board[y * 8 + xi - 1].is_black() {
            if yi > 0 {
                let yin = (y + 1) * 8;
                if y == yi - 1 || (yin < 64 && board[yin + xi - 1].is_pawn() && board[yin + xi - 1].is_white()) {
                    if !is_backwards(&flipped, (7 - y) * 8 + xi - 1) {
                        assert(span_row(board@, index as int, y as int));
                        return true;
                    }
                }
            }
        }
        if xi < 7 && board[y * 8 + xi + 1].is_pawn() && board[y * 8 + xi + 1].is_black() {
            if yi > 0 {
                let yin = (y + 1) * 8;
                if y == yi - 1 || (yin < 64 && board[yin + xi + 1].is_pawn() && board[yin + xi + 1].is_white()) {
                    if !is_backwards(&flipped, (7 - y) * 8 + xi + 1) {
                        assert(span_row(board@, index as int, y as int));
                        return true;
                    }
                }
            }
        }
        assert(!span_row(board@, index as int, y as int));
        y = y + 1;
    }
    false
}

fn is_outpost(board: &[u8; 64], index: usize) -> (r: bool)
    requires
        index < 64,
    ensures
        r == outpost_square(board@, index as int),
{
    let rank = 8 - (index / 8);
    if rank < 4 || rank > 6 {
        return false;
    }
    if index % 8 != 7 {
        if board[index + 9].is_pawn() && board[index + 9].is_white() && !pawn_attacks_span(board, index) {
            return true;
        }
    }
    if index % 8 != 0 {
        if board[index + 7].is_pawn() && board[index + 7].is_white() && !pawn_attacks_span(board, index) {
            return true;
        }
    }
    false
}

fn outpost(board: &[u8; 64], index: usize) -> (r: i32)
    requires
        index < 64,
    ensures
        r == outpost_value(board@, index as int),
{
    if !is_outpost(board, index) {
        return 0;
    }
    let xi = index % 8;
    let yi = index / 8;
    let ghost fc = |s: int| if black_officer(board@, s) && same_half(xi as int, s) { 1int } else { 0int };
    if board[index].is_knight() && (xi < 2 || xi > 5) {
        let mut ea: i32 = 0;
        let mut count: i32 = 0;
        let mut x: usize = 0;
        while x < 8
            invariant
                x <= 8,
                xi == index % 8,
                yi == index / 8,
                fc == (|s: int| if black_officer(board@, s) && same_half(xi as int, s) { 1int } else { 0int }),
                (ea == 0) == (forall|s: int| 0 <= s < 64 && s % 8 < x ==> !(#[trigger] black_officer(board@, s) && knight_jump(xi as int, yi as int, s))),
                count == grid_sum(fc, x as int),
                0 <= count <= x * 8,
            decreases 8 - x,
        {
            let mut y: usize = 0;
            let ghost c0 = count;
            while y < 8
                invariant
                    y <= 8,
                    x < 8,
                    xi == index % 8,
                    yi == index / 8,
                    fc == (|s: int| if black_officer(board@, s) && same_half(xi as int, s) { 1int } else { 0int }),
                    (ea == 0) == (forall|s: int| 0 <= s < 64 && (s % 8 < x || (s % 8 == x && s / 8 < y)) ==> !(#[trigger] black_officer(board@, s) && knight_jump(xi as int, yi as int, s))),
                    c0 == grid_sum(fc, x as int),
                    0 <= c0 <= x * 8,
                    count == c0 + column_sum(fc, x as int, y as int),
                    0 <= count - c0 <= y,
                decreases 8 - y,
            {
                let s = y * 8 + x;
                proof {
                    assert((s as int) % 8 == x && (s as int) / 8 == y);
                }
                let ghost before = ea;
                if board[s].is_piece() && !board[s].is_pawn() && board[s].is_black() {
                    let dx: usize = if xi >= x {
                        xi - x
                    } else {
                        x - xi
                    };
                    let dy: usize = if yi >= y {
                        yi - y
                    } else {
                        y - yi
                    };
                    if (dx == 2 && dy == 1) || (dx == 1 && dy == 2) {
                        ea = 1;
                    }
                    if (x < 4 && xi < 4) || (x >= 4 && xi >= 4) {
                        count = count + 1;
                    }
                }
                proof {
                    assert forall|t: int| 0 <= t < 64 && (t % 8 < x || (t % 8 == x && t / 8 < y + 1)) && (ea == 0) implies !(#[trigger] black_officer(board@, t) && knight_jump(xi as int, yi as int, t)) by {
                        if t % 8 == x && t / 8 == y {
                            assert(t == s);
                        }
                    }
                    if ea != 0 && before == 0 {
                        assert(black_officer(board@, s as int) && knight_jump(xi as int, yi as int, s as int));
                    }
                }
                y = y + 1;
            }
            proof {
                assert forall|t: int| 0 <= t < 64 && t % 8 < x + 1 && (ea == 0) implies !(#[trigger] black_officer(board@, t) && knight_jump(xi as int, yi as int, t)) by {
                    if t % 8 == x {
                        assert(t / 8 < 8);
                    }
                }
            }
            x = x + 1;
        }
        if ea == 0 && count <= 1 {
            return WEIGHT_OUTPOST[2];
        }
    }
    WEIGHT_OUTPOST[if board[index].is_knight() {
        4
    } else {
        3
    }]
}

/// The rook king-ring bonus of the piece on `index`: 16 when it makes no attack on the black
/// king's ring and a square of its column is in the ring.
pub open spec fn rook_ring_value(b: Seq<u8>, index: int) -> int {
    if king_attackers_x2(b, index) > 0 {
        0
    } else if exists|y: int| 0 <= y < 8 && #[trigger] in_king_ring(b, y * 8 + index % 8, false) {
        16
    } else {
        0
    }
}

/// The index step of diagonal `i` of `bishop_king_ring`: rows +1, -1, +1, -1 and columns -1,
/// -1, +1, +1.
pub open spec fn diagonal_step(i: int) -> int {
    (if i % 2 == 0 { 8int } else { -8int }) + (if i > 1 { 1int } else { -1int })
}

/// Whether step `e` of a ray lets the diagonal scan pass: off the board, or a piece that is
/// not a pawn.
pub open spec fn passable(b: Seq<u8>, index: int, step: int, e: int) -> bool {
    let sq = index + e * step;
    !(0 <= sq < 64) || (byte_is_piece(b[sq]) && !(b[sq] & 7u8 == 2))
}

/// Whether the diagonal scan from `index` along `step` reaches a square of the black king's
/// ring: a piece on step `d` whose square is in the ring, every step before it passable.
pub open spec fn diagonal_ring_hit(b: Seq<u8>, index: int, step: int) -> bool {
    exists|d: int|
        1 <= d < 8 && 0 <= index + d * step < 64 && byte_is_piece(b[index + d * step]) && #[trigger] in_king_ring(
            b,
            index + d * step,
            false,
        ) && forall|e: int| 1 <= e < d ==> #[trigger] passable(b, index, step, e)
}

/// The bishop king-ring bonus of the piece on `index`: 24 when it makes no attack on the black
/// king's ring and one of its diagonal scans reaches the ring.
pub open spec fn bishop_ring_value(b: Seq<u8>, index: int) -> int {
    if king_attackers_x2(b, index) > 0 {
        0
    } else if exists|i: int| 0 <= i < 4 && #[trigger] diagonal_ring_hit(b, index, diagonal_step(i)) {
        24
    } else {
        0
    }
}

fn rook_king_ring(board: &[u8; 64], index: usize) -> (r: i32)
    requires
        index < 64,
    ensures
        r == rook_ring_value(board@, index as int),
{
    if count_king_attackers(board, index) > 0 {
        return 0;
    }
    let xi = index % 8;
    let mut y: usize = 0;
    while y < 8
        invariant
            y <= 8,
            xi == index % 8,
            king_attackers_x2(board@, index as int) <= 0,
            forall|z: int| 0 <= z < y ==> !#[trigger] in_king_ring(board@, z * 8 + index % 8, false),
        decreases 8 - y,
    {
        if king_ring(board, y * 8 + xi, false) {
            assert(in_king_ring(board@, y * 8 + index % 8, false));
            return WEIGHT_ROOK_KING_RING;
        }
        y = y + 1;
    }
    0
}

fn bishop_king_ring(board: &[u8; 64], index: usize) -> (r: i32)
    requires
        index < 64,
    ensures
        r == bishop_ring_value(board@, index as int),
{
    if count_king_attackers(board, index) > 0 {
        return 0;
    }
    let xi: i32 = (index % 8) as i32;
    let yi: i32 = (index / 8) as i32;
    let mut i: i32 = 0;
    while i < 4
        invariant
            0 <= i <= 4,
            index < 64,
            xi == index % 8,
            yi == index / 8,
            king_attackers_x2(board@, index as int) <= 0,
            forall|j: int| 0 <= j < i ==> !#[trigger] diagonal_ring_hit(board@, index as int, diagonal_step(j)),
        decreases 4 - i,
    {
        let x: i32 = if i > 1 {
            1
        } else {
            -1
        };
        let y: i32 = if i % 2 == 0 {
            1
        } else {
            -1
        };
        let ghost step = diagonal_step(i as int);
        assert(step == y * 8 + x);
        let mut d: i32 = 1;
        while d < 8
            invariant_except_break
                forall|e: int| 1 <= e < d ==> #[trigger] passable(board@, index as int, step, e),
            invariant
                1 <= d <= 8,
                0 <= i < 4,
                king_attackers_x2(board@, index as int) <= 0,
                x == 1 || x == -1,
                y == 1 || y == -1,
                step == y * 8 + x,
                step == diagonal_step(i as int),
                index < 64,
                xi == index % 8,
                yi == index / 8,
                forall|e: int|
                    1 <= e < d ==> !(0 <= index + e * step < 64 && byte_is_piece(board@[index + e * step])
                        && #[trigger] in_king_ring(board@, index + e * step, false)),
            ensures
                !diagonal_ring_hit(board@, index as int, step),
            decreases 8 - d,
        {
            assert(-8 <= d * x <= 8 && -8 <= d * y <= 8) by (nonlinear_arith)
                requires
                    1 <= d <= 8,
                    x == 1 || x == -1,
                    y == 1 || y == -1,
            ;
            let sqx = xi + d * x;
            let sqy = yi + d * y;
            let v = sqy * 8 + sqx;
            proof {
                assert(v == index + d * step) by (nonlinear_arith)
                    requires
                        v == (yi + d * y) * 8 + (xi + d * x),
                        index == yi * 8 + xi,
                        step == y * 8 + x,
                ;
            }
            if v >= 0 && v < 64 {
                let sqi = v as usize;
                if !board[sqi].is_piece() {
                    proof {
                        assert(!passable(board@, index as int, step, d as int));
                        assert forall|dd: int|
                            1 <= dd < 8 && 0 <= index + dd * step < 64 && byte_is_piece(board@[index + dd * step])
                                && #[trigger] in_king_ring(board@, index + dd * step, false) implies !(forall|e: int|
                            1 <= e < dd ==> #[trigger] passable(board@, index as int, step, e)) by {
                            if dd < d {
                            } else if dd == d {
                            } else {
                                assert(1 <= d < dd);
                            }
                        }
                    }
                    break;
                }
                if king_ring(board, sqi, false) {
                    assert(in_king_ring(board@, index + d * step, false));
                    assert(diagonal_ring_hit(board@, index as int, step));
                    assert(diagonal_ring_hit(board@, index as int, diagonal_step(i as int)));
                    assert(0 <= i < 4);
                    return WEIGHT_BISHOP_KING_RING;
                }
                if board[sqi].is_pawn() {
                    proof {
                        assert(!passable(board@, index as int, step, d as int));
                        assert forall|dd: int|
                            1 <= dd < 8 && 0 <= index + dd * step < 64 && byte_is_piece(board@[index + dd * step])
                                && #[trigger] in_king_ring(board@, index + dd * step, false) implies !(forall|e: int|
                            1 <= e < dd ==> #[trigger] passable(board@, index as int, step, e)) by {
                            if dd < d {
                            } else if dd == d {
                            } else {
                                assert(1 <= d < dd);
                            }
                        }
                    }
                    break;
                }
            }
            d = d + 1;
        }
        i = i + 1;
    }
    0
}

/// Whether column `x` holds a white king.
pub open spec fn king_in_column(b: Seq<u8>, x: int) -> bool {
    exists|y: int| 0 <= y < 8 && #[trigger] byte_is_white_kind(b[y * 8 + x], 5)
}

/// The last of columns `0..nx` that holds a white king; 0 when none does.
pub open spec fn king_column(b: Seq<u8>, nx: int) -> int
    decreases nx,
{
    if nx <= 0 {
        0
    } else if king_in_column(b, nx - 1) {
        nx - 1
    } else {
        king_column(b, nx - 1)
    }
}

/// The trapped-rook term of the piece on `index`: with mobility at most 3 and the white king's
/// column on the same half as its own, -55, doubled when the black castling rights are gone.
pub open spec fn trapped_value(b: Seq<u8>, index: int, castling: u8, moves: &MotionSet) -> int {
    let kx = king_column(b, 8);
    if mobility_of(b, moves, index) > 3 {
        0
    } else if (kx < 4 && index % 8 < 4) || (kx >= 4 && index % 8 >= 4) {
        -55 * (if castling & 0b0000_1100u8 != 0 { 1int } else { 2int })
    } else {
        0
    }
}

/// Step `j` of the long-diagonal walk from `v` towards the centre.
pub open spec fn towards_centre(v: int, j: int) -> int {
    if v < 4 {
        v + j
    } else {
        v - j
    }
}

/// The long-diagonal term of a bishop on `index`: on a long diagonal, at most two columns from
/// the edge, with no pawn on the squares from it to the centre, 45; else 0.
pub open spec fn long_diagonal_value(b: Seq<u8>, index: int) -> int {
    let xi = index % 8;
    let yi = index / 8;
    let m = if xi < 7 - xi { xi } else { 7 - xi };
    if abs_diff(xi, yi) != 0 && abs_diff(xi, 7 - yi) != 0 {
        0
    } else if m > 2 {
        0
    } else if exists|j: int| 0 <= j < 4 - m && #[trigger] b[towards_centre(yi, j) * 8 + towards_centre(xi, j)] & 7u8 == 2 {
        0
    } else {
        45
    }
}

/// The index step of direction `i` of `weak_queen`: the eight neighbours in reading order.
pub open spec fn queen_step(i: int) -> int {
    let k = if i > 3 { i + 1 } else { i };
    (k / 3 - 1) * 8 + (k % 3 - 1)
}

/// Whether direction `i` of `weak_queen` is a rank or file.
pub open spec fn queen_dir_straight(i: int) -> bool {
    let k = if i > 3 { i + 1 } else { i };
    k / 3 - 1 == 0 || k % 3 - 1 == 0
}

/// The number of empty squares of the board among steps `1..d` of a ray.
pub open spec fn empties_before(b: Seq<u8>, index: int, step: int, d: int) -> int
    decreases d,
{
    if d <= 1 {
        0
    } else {
        empties_before(b, index, step, d - 1) + (if 0 <= index + (d - 1) * step < 64 && !byte_is_piece(
            b[index + (d - 1) * step],
        ) {
            1int
        } else {
            0int
        })
    }
}

/// Whether step `d` of direction `i` holds a black slider that pins against the queen behind
/// exactly one empty square: a rook on a rank or file, a bishop on a diagonal.
pub open spec fn weak_queen_hit(b: Seq<u8>, index: int, i: int, d: int) -> bool {
    let sq = index + d * queen_step(i);
    &&& 1 <= d < 8
    &&& 0 <= sq < 64
    &&& byte_is_black(b[sq])
    &&& ((b[sq] & 7u8 == 1 && queen_dir_straight(i)) || (b[sq] & 7u8 == 3 && !queen_dir_straight(i)))
    &&& empties_before(b, index, queen_step(i), d) == 1
}

/// Whether the queen on square `index`'s infiltration is countered: a black pawn on square
/// `index - k` or a black pawn that can come to attack the square.
pub open spec fn infiltration_countered(b: Seq<u8>, index: int, k: int) -> bool {
    (b[index - k] & 7u8 == 2 && byte_is_black(b[index - k])) || attacks_span(b, index)
}

/// The infiltration term of a queen on `index`: 0 in the white half; -2 on the first row;
/// else -2 unless countered at the squares `index - 7` and `index - 9` that apply.
pub open spec fn infiltration_value(b: Seq<u8>, index: int) -> int {
    let xi = index % 8;
    let yi = index / 8;
    if yi > 3 {
        0
    } else if yi == 0 {
        -2
    } else if xi == 7 && index >= 7 {
        if infiltration_countered(b, index, 7) { 0 } else { -2 }
    } else if xi == 0 && index >= 9 {
        if infiltration_countered(b, index, 9) { 0 } else { -2 }
    } else if index >= 7 && infiltration_countered(b, index, 7) {
        0
    } else if index >= 9 && infiltration_countered(b, index, 9) {
        0
    } else {
        -2
    }
}

/// The square of the first white king in a column-by-column scan from position `p`; 64 when
/// there is none.
pub open spec fn first_king_cm(b: Seq<u8>, p: int) -> int
    decreases 64 - p,
{
    if p >= 64 {
        64
    } else if byte_is_white_kind(b[column_major(p)], 5) {
        column_major(p)
    } else {
        first_king_cm(b, p + 1)
    }
}

/// The king-protector term of a minor piece on `index`: the distance (in king steps) to the
/// first white king of a column-by-column scan, times -8 for a knight and -6 for a bishop; 0
/// without a white king.
pub open spec fn protector_value(b: Seq<u8>, index: int, is_horse: bool) -> int {
    let k = first_king_cm(b, 0);
    let dx = abs_diff(k % 8, index % 8);
    let dy = abs_diff(k / 8, index / 8);
    if k >= 64 {
        0
    } else {
        (if dx >= dy { dx } else { dy }) * (if is_horse { -8int } else { -6int })
    }
}

fn trapped_rook(board: &[u8; 64], index: usize, castling: u8, moves: &MotionSet) -> (r: i32)
    requires
        index < 64,
    ensures
        r == trapped_value(board@, index as int, castling, moves),
{
    if mobility(board, index, moves) > 3 {
        return 0;
    }
    let mut kingx: usize = 0;
    let mut x: usize = 0;
    while x < 8
        invariant
            x <= 8,
            kingx == king_column(board@, x as int),
        decreases 8 - x,
    {
        let mut y: usize = 0;
        let mut found = false;
        while y < 8
            invariant
                y <= 8,
                x < 8,
                found == exists|z: int| 0 <= z < y && #[trigger] byte_is_white_kind(board@[z * 8 + x], 5),
            decreases 8 - y,
        {
            proof {
                let t = (y * 8 + x) as int;
                assert(byte_is_white_kind(board@[t], 5) == (board@[t] & 7u8 == 5 && byte_is_white(board@[t])));
            }
            if board[y * 8 + x].is_king() && board[y * 8 + x].is_white() {
                found = true;
            }
            y = y + 1;
        }
        if found {
            kingx = x;
        }
        x = x + 1;
    }
    if (kingx < 4 && index % 8 < 4) || kingx >= 4 && index % 8 >= 4 {
        return WEIGHT_TRAPPED_ROOK * if (castling & 0b0000_1100) != 0 {
            1
        } else {
            2
        };
    }
    0
}

fn long_diagonal_bishop(board: &[u8; 64], index: usize) -> (r: i32)
    requires
        index < 64,
    ensures
        r == long_diagonal_value(board@, index as int),
{
    let xi = index % 8;
    let yi = index / 8;
    let dxy: usize = if xi >= yi {
        xi - yi
    } else {
        yi - xi
    };
    let dxa: usize = if xi >= 7 - yi {
        xi - (7 - yi)
    } else {
        (7 - yi) - xi
    };
    if dxy != 0 && dxa != 0 {
        return 0;
    }
    let mut x = xi;
    let mut y = yi;
    let m: usize = if x < 7 - x {
        x
    } else {
        7 - x
    };
    if m > 2 {
        return 0;
    }
    let mut k: usize = m;
    while k < 4
        invariant
            m <= k <= 4,
            m <= 2,
            xi == index % 8,
            yi == index / 8,
            m == (if xi < 7 - xi { xi as int } else { 7 - xi }),
            xi == yi || xi == 7 - yi,
            x == towards_centre(xi as int, (k - m) as int),
            y == towards_centre(yi as int, (k - m) as int),
            forall|j: int| 0 <= j < k - m ==> !(#[trigger] board@[towards_centre(yi as int, j) * 8 + towards_centre(xi as int, j)] & 7u8 == 2),
        decreases 4 - k,
    {
        if board[y * 8 + x].is_pawn() {
            assert(board@[towards_centre(yi as int, (k - m) as int) * 8 + towards_centre(xi as int, (k - m) as int)] & 7u8 == 2);
            return 0;
        }
        if x < 4 {
            x = x + 1;
        } else {
            x = x - 1;
        }
        if y < 4 {
            y = y + 1;
        } else {
            y = y - 1;
        }
        k = k + 1;
    }
    WEIGHT_LONG_DIAG_BISHOP
}

/// The weak-queen term of a queen on `index`: -56 when some direction holds a black slider
/// behind exactly one empty square; else 0.
pub open spec fn weak_queen_value(b: Seq<u8>, index: int) -> int {
    if exists|i: int, d: int| 0 <= i < 8 && #[trigger] weak_queen_hit(b, index, i, d) {
        -56
    } else {
        0
    }
}

/// The placement score of the white piece on `index`: for a knight the outpost, minor-behind-
/// pawn, rook-queen-file, rook-king-ring, open-file (with the trapped-rook term when the column
/// is not closed) and king-protector terms; for a bishop the outpost, minor-behind-pawn,
/// bishop-pawns, x-ray, bishop-king-ring, king-protector and long-diagonal terms; for a queen
/// the weak-queen and infiltration terms.
pub open spec fn piece_square_value(b: Seq<u8>, castling: u8, moves: &MotionSet, index: int) -> int {
    let v = b[index];
    if !byte_is_white(v) {
        0
    } else if v & 7u8 == 6 {
        outpost_value(b, index) + (if index > 7 && byte_is_white(b[index - 8]) && b[index - 8] & 7u8 == 2 {
            18int
        } else {
            0int
        }) + (if queen_in_column(b, index) { 6int } else { 0int }) + rook_ring_value(b, index)
            + open_file_value(b, index) + (if open_file_value(b, index) > 0 {
            trapped_value(b, index, castling, moves)
        } else {
            0
        }) + protector_value(b, index, true)
    } else if v & 7u8 == 3 {
        outpost_value(b, index) + (if index > 7 && byte_is_white(b[index - 8]) && b[index - 8] & 7u8 == 2 {
            18int
        } else {
            0int
        }) + bishop_pawns_value(b, index) - 4 * xray_pawns(b, index) + bishop_ring_value(b, index)
            + protector_value(b, index, false) + long_diagonal_value(b, index)
    } else if v & 7u8 == 4 {
        weak_queen_value(b, index) + infiltration_value(b, index)
    } else {
        0
    }
}

/// White's piece-placement score.
pub open spec fn pieces_value(b: Seq<u8>, castling: u8, moves: &MotionSet) -> int {
    sum_squares(|i: int| piece_square_value(b, castling, moves, i), 64)
}

fn weak_queen(board: &[u8; 64], index: usize) -> (r: i32)
    requires
        index < 64,
    ensures
        r == weak_queen_value(board@, index as int),
{
    let xi: i32 = (index % 8) as i32;
    let yi: i32 = (index / 8) as i32;
    let mut i: i32 = 0;
    while i < 8
        invariant
            0 <= i <= 8,
            index < 64,
            xi == index % 8,
            yi == index / 8,
            forall|j: int, d: int| 0 <= j < i ==> !#[trigger] weak_queen_hit(board@, index as int, j, d),
        decreases 8 - i,
    {
        let add: i32 = if i > 3 {
            1
        } else {
            0
        };
        let x: i32 = ((i + add) % 3) - 1;
        let y: i32 = ((i + add) / 3) - 1;
        let ghost step = queen_step(i as int);
        assert(step == y * 8 + x);
        assert(queen_dir_straight(i as int) == (x == 0 || y == 0));
        let mut count: i32 = 0;
        let mut d: i32 = 1;
        while d < 8
            invariant
                1 <= d <= 8,
                0 <= i < 8,
                -1 <= x <= 1,
                -1 <= y <= 1,
                step == y * 8 + x,
                step == queen_step(i as int),
                queen_dir_straight(i as int) == (x == 0 || y == 0),
                index < 64,
                xi == index % 8,
                yi == index / 8,
                count == empties_before(board@, index as int, step, d as int),
                0 <= count < d,
                forall|j: int, e: int| 0 <= j < i ==> !#[trigger] weak_queen_hit(board@, index as int, j, e),
                forall|e: int| e < d ==> !#[trigger] weak_queen_hit(board@, index as int, i as int, e),
            decreases 8 - d,
        {
            assert(-8 <= d * x <= 8 && -8 <= d * y <= 8) by (nonlinear_arith)
                requires
                    1 <= d <= 8,
                    -1 <= x <= 1,
                    -1 <= y <= 1,
            ;
            let v = (yi + d * y) * 8 + (xi + d * x);
            proof {
                assert(v == index + d * step) by (nonlinear_arith)
                    requires
                        v == (yi + d * y) * 8 + (xi + d * x),
                        index == yi * 8 + xi,
                        step == y * 8 + x,
                ;
            }
            if v >= 0 && v < 64 {
                let sqi = v as usize;
                if board[sqi].is_rook() && board[sqi].is_black() {
                    if (x == 0 || y == 0) && count == 1 {
                        assert(weak_queen_hit(board@, index as int, i as int, d as int));
                        return WEIGHT_WEAK_QUEEN;
                    }
                }
                if board[sqi].is_bishop() && board[sqi].is_black() {
                    if (x != 0 && y != 0) && count == 1 {
                        assert(weak_queen_hit(board@, index as int, i as int, d as int));
                        return WEIGHT_WEAK_QUEEN;
                    }
                }
                if !board[sqi].is_piece() {
                    count = count + 1;
                }
            }
            assert(!weak_queen_hit(board@, index as int, i as int, d as int));
            d = d + 1;
        }
        i = i + 1;
    }
    0
}

fn queen_infiltration(board: &[u8; 64], index: usize) -> (r: i32)
    requires
        index < 64,
    ensures
        r == infiltration_value(board@, index as int),
{
    let xi = index % 8;
    let yi = index / 8;
    if yi > 3 {
        return 0;
    }
    if yi == 0 {
        return WEIGHT_QUEEN_INFILTRATION;
    }
    if xi == 7 && index >= 7 {
        if (board[index - 7].is_pawn() && board[index - 7].is_black()) || pawn_attacks_span(board, index) {
            return 0;
        } else {
            return WEIGHT_QUEEN_INFILTRATION;
        }
    }
    if xi == 0 && index >= 9 {
        if (board[index - 9].is_pawn() && board[index - 9].is_black()) || pawn_attacks_span(board, index) {
            return 0;
        } else {
            return WEIGHT_QUEEN_INFILTRATION;
        }
    }
    if index >= 7 {
        let subbed = index - 7;
        if (board[subbed].is_pawn() && board[subbed].is_black()) || pawn_attacks_span(board, index) {
            return 0;
        }
    }
    if index >= 9 {
        let subbed = index - 9;
        if (board[subbed].is_pawn() && board[subbed].is_black()) || pawn_attacks_span(board, index) {
            return 0;
        }
    }
    WEIGHT_QUEEN_INFILTRATION
}

fn king_protector(board: &[u8; 64], index: usize, is_horse: bool) -> (r: i32)
    requires
        index < 64,
    ensures
        r == protector_value(board@, index as int, is_horse),
        -56 <= r <= 0,
{
    let xi = index % 8;
    let yi = index / 8;
    let mut x: usize = 0;
    while x < 8
        invariant
            x <= 8,
            index < 64,
            xi == index % 8,
            yi == index / 8,
            first_king_cm(board@, 0) == first_king_cm(board@, (x * 8) as int),
        decreases 8 - x,
    {
        let mut y: usize = 0;
        while y < 8
            invariant
                y <= 8,
                x < 8,
                index < 64,
                xi == index % 8,
                yi == index / 8,
                first_king_cm(board@, 0) == first_king_cm(board@, (x * 8 + y) as int),
            decreases 8 - y,
        {
            let p = x * 8 + y;
            proof {
                assert(column_major(p as int) == y * 8 + x);
            }
            if board[y * 8 + x].is_king() && board[y * 8 + x].is_white() {
                let dx: usize = if x >= xi {
                    x - xi
                } else {
                    xi - x
                };
                let dy: usize = if y >= yi {
                    y - yi
                } else {
                    yi - y
                };
                let dist: usize = if dx >= dy {
                    dx
                } else {
                    dy
                };
                proof {
                    let k = (y * 8 + x) as int;
                    assert(k % 8 == x && k / 8 == y);
                }
                assert(dist <= 7);
                let d32 = dist as i32;
                return if is_horse {
                    d32 * WEIGHT_KING_PROTECTOR_HORSE
                } else {
                    d32 * WEIGHT_KING_PROTECTOR_BISHOP
                };
            }
            y = y + 1;
        }
        x = x + 1;
    }
    0
}

/// White's piece-placement score: the placement terms of each white knight, bishop and queen.
pub fn midgame_pieces(board: &[u8; 64], castling: u8, moves: &MotionSet) -> (r: i32)
    ensures
        r == pieces_value(board@, castling, moves),
        -(64 * 14000) <= r <= 64 * 300,
{
    let ghost f = |i: int| piece_square_value(board@, castling, moves, i);
    let mut value: i32 = 0;
    let mut index: usize = 0;
    while index < 64
        invariant
            index <= 64,
            f == (|i: int| piece_square_value(board@, castling, moves, i)),
            value == sum_squares(f, index as int),
            -(index * 14000) <= value <= index * 300,
        decreases 64 - index,
    {
        let piece = board[index];
        let mut v: i32 = 0;
        if piece.is_white() {
            if piece.is_knight() {
                v = v + outpost(board, index);
                v = v + mbehind_pawn(board, index);
                v = v + rook_queen_file(board, index);
                v = v + rook_king_ring(board, index);
                let open_file = rook_open_file(board, index);
                v = v + open_file;
                if open_file > 0 {
                    v = v + trapped_rook(board, index, castling, moves);
                }
                v = v + king_protector(board, index, true);
            } else if piece.is_bishop() {
                v = v + outpost(board, index);
                v = v + mbehind_pawn(board, index);
                v = v + bishop_pawns(board, index);
                v = v + bishop_xray(board, index);
                v = v + bishop_king_ring(board, index);
                v = v + king_protector(board, index, false);
                v = v + long_diagonal_bishop(board, index);
            } else if piece.is_queen() {
                v = v + weak_queen(board, index);
                v = v + queen_infiltration(board, index);
            }
        }
        value = value + v;
        index = index + 1;
    }
    value
}

} // verus!
