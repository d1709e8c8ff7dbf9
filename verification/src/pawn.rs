use vstd::prelude::*;
use crate::chessbyte::{ChessByte, byte_is_white, byte_is_black, byte_piece};
use crate::material::sum_squares;
use crate::piece::PieceByte;

verus! {

// Pawn structure, from white's side: white pawns move towards row 0.

/// Whether a byte holds a white pawn.
pub open spec fn w_pawn(b: u8) -> bool {
    byte_is_white(b) && byte_piece(b) == PieceByte::PAWN
}

/// Whether a byte holds a black pawn.
pub open spec fn b_pawn(b: u8) -> bool {
    byte_is_black(b) && byte_piece(b) == PieceByte::PAWN
}

/// A white pawn on `index` with no white pawn on square `y * 8 + index - 1` nor
/// `y * 8 + index + 1` of any row `y` (when that square is on the board).
pub open spec fn isolated(b: Seq<u8>, index: int) -> bool {
    &&& w_pawn(b[index])
    &&& forall|y: int|
        0 <= y < 8 ==> !(y * 8 + index - 1 < 64 && w_pawn(#[trigger] b[y * 8 + index - 1]))
            && !(y * 8 + index + 1 < 64 && w_pawn(b[y * 8 + index + 1]))
}

/// Whether a row `y` of the scan for `is_backwards` finds a white pawn beside: the squares
/// `y * 8 + c - 1` and (for the kind) `y * 8 - c + 1` with the white bit of `y * 8 + c + 1`,
/// where `c` is the column of `index`; rows whose square `y * 8 + c + 1` is off the board are
/// skipped.
pub open spec fn backwards_row_stops(b: Seq<u8>, index: int, y: int) -> bool {
    let c = index % 8;
    y * 8 + c + 1 <= 63 && (w_pawn(b[y * 8 + c - 1]) || (byte_piece(b[y * 8 - c + 1]) == PieceByte::PAWN
        && byte_is_white(b[y * 8 + c + 1])))
}

/// A white pawn on `index`, with no row from its own to the last that stops the scan, past
/// square 17, with a black pawn on square `index - 17`, `index - 15` or `index - 8`.
pub open spec fn backwards(b: Seq<u8>, index: int) -> bool {
    &&& w_pawn(b[index])
    &&& forall|y: int| index / 8 <= y < 8 ==> !#[trigger] backwards_row_stops(b, index, y)
    &&& index > 17
    &&& (b_pawn(b[index - 17]) || b_pawn(b[index - 15]) || b_pawn(b[index - 8]))
}

/// The inputs on which `is_backwards` reads off the board: a white pawn on the top row, on
/// square 0 or without a white pawn just before it.
pub open spec fn backwards_defined(b: Seq<u8>, index: int) -> bool {
    w_pawn(b[index]) && index < 8 ==> index != 0 && w_pawn(b[index - 1])
}

/// A white pawn on square `index - 8` or `index + 8`, on the board.
pub open spec fn doubled(b: Seq<u8>, index: int) -> bool {
    (index >= 8 && w_pawn(b[index - 8])) || (8 <= index <= 55 && w_pawn(b[index + 8]))
}

/// The number of white pawns on squares `index + 9` (not on the edge columns) and `index + 7`
/// (not on the first column), on the board.
pub open spec fn support_count(b: Seq<u8>, index: int) -> int {
    (if index + 9 < 64 && index % 8 < 7 && index % 8 > 0 && w_pawn(b[index + 9]) { 1int } else { 0int })
        + (if index + 7 < 64 && index % 8 > 0 && w_pawn(b[index + 7]) { 1int } else { 0int })
}

/// A white pawn on square `index + 1` or `index - 1`, on the board.
pub open spec fn phalanx(b: Seq<u8>, index: int) -> bool {
    (index + 1 < 64 && w_pawn(b[index + 1])) || (index >= 1 && w_pawn(b[index - 1]))
}

/// A black pawn in the column of `index`, on a row before its own.
pub open spec fn opposed(b: Seq<u8>, index: int) -> bool {
    exists|y: int| 0 <= y < index / 8 && #[trigger] b_pawn(b[y * 8 + index % 8])
}

/// The seed of the connected bonus by rank.
pub const CONNECTED_SEED: [i32; 7] = [0, 7, 8, 12, 29, 48, 86];

/// The connected bonus: on ranks 2 to 7 (rank `8 - index / 8`), for a supported or phalanx
/// pawn, the rank's seed times `2 + phalanx - opposed`, plus 21 per supporting pawn.
pub open spec fn connected_bonus(b: Seq<u8>, index: int) -> int {
    let rank = 8 - index / 8;
    if rank < 2 || rank > 7 || !(support_count(b, index) > 0 || phalanx(b, index)) {
        0
    } else {
        CONNECTED_SEED@[rank - 1] * (2 + (if phalanx(b, index) { 1int } else { 0int }) - (if opposed(
            b,
            index,
        ) {
            1int
        } else {
            0int
        })) + 21 * support_count(b, index)
    }
}

/// Unopposed and isolated or backwards.
pub open spec fn unopposed_weak(b: Seq<u8>, index: int) -> bool {
    !opposed(b, index) && (isolated(b, index) || backwards(b, index))
}

/// On rows 2 and 3, a black piece of pawn kind (or a pawn byte without the white bit) right
/// in front: `4 - row`; else 0.
pub open spec fn blocked_value(b: Seq<u8>, index: int) -> int {
    let y = index / 8;
    if y != 2 && y != 3 {
        0
    } else if !(b[index - 8] & 7u8 == 2) || byte_is_white(b[index - 8]) {
        0
    } else {
        4 - y
    }
}

/// Whether a black pawn (a pawn-kind byte without the white bit) stands in row `y` of a
/// column beside column `ix`.
pub open spec fn side_black_pawn(b: Seq<u8>, ix: int, y: int) -> bool {
    (ix != 0 && b[y * 8 + ix - 1] & 7u8 == 2 && byte_is_black(b[y * 8 + ix - 1])) || (ix != 7 && b[y * 8
        + ix + 1] & 7u8 == 2 && byte_is_black(b[y * 8 + ix + 1]))
}

/// Whether a pawn of the given colour stands in row `y` of column `ix`.
pub open spec fn column_pawn(b: Seq<u8>, ix: int, y: int, white: bool) -> bool {
    b[y * 8 + ix] & 7u8 == 2 && (if white { byte_is_white(b[y * 8 + ix]) } else { byte_is_black(b[y * 8 + ix]) })
}

/// An isolated pawn with no black pawn in the columns beside it, a black pawn before it and a
/// white pawn behind it in its own column.
pub open spec fn double_isolated(b: Seq<u8>, index: int) -> bool {
    let iy = index / 8;
    let ix = index % 8;
    &&& isolated(b, index)
    &&& forall|y: int| 0 <= y < 8 ==> !#[trigger] side_black_pawn(b, ix, y)
    &&& exists|y: int| 0 <= y < iy && #[trigger] column_pawn(b, ix, y, false)
    &&& exists|y: int| iy < y < 8 && #[trigger] column_pawn(b, ix, y, true)
}

/// The pawn-structure score of the white pawn on `index`.
pub open spec fn pawn_score(b: Seq<u8>, index: int) -> int {
    (if double_isolated(b, index) {
        -11int
    } else if isolated(b, index) {
        -5int
    } else if backwards(b, index) {
        -9int
    } else {
        0int
    }) + (if doubled(b, index) { -11int } else { 0int }) + connected_bonus(b, index) - 13 * (if unopposed_weak(
        b,
        index,
    ) {
        1int
    } else {
        0int
    }) + (if blocked_value(b, index) == 1 {
        -11int
    } else if blocked_value(b, index) == 2 {
        -3int
    } else {
        0int
    })
}

/// The pawn-structure score of white.
pub open spec fn pawn_structure(b: Seq<u8>) -> int {
    sum_squares(|i: int| if byte_is_white(b[i]) && b[i] & 7u8 == 2 { pawn_score(b, i) } else { 0 }, 64)
}

/// The boards on which `midgame_pawn` reads only squares of the board: every white pawn on
/// the top row stands past square 0, and is isolated or has a white pawn just before it.
pub open spec fn pawn_structure_defined(b: Seq<u8>) -> bool {
    forall|i: int| 0 <= i < 8 && #[trigger] w_pawn(b[i]) ==> i != 0 && (isolated(b, i) || w_pawn(b[i - 1]))
}

fn is_w_pawn_at(board: &[u8; 64], i: usize) -> (r: bool)
    requires
        i < 64,
    ensures
        r == w_pawn(board@[i as int]),
{
    board[i].is_white() && board[i].get_piece() == PieceByte::PAWN
}

fn is_isolated(board: &[u8; 64], index: usize) -> (r: bool)
    requires
        index < 64,
        !(index == 0 && w_pawn(board@[0])),
    ensures
        r == isolated(board@, index as int),
{
    if !board[index].is_white() || board[index].get_piece() != PieceByte::PAWN {
        return false;
    }
    let mut y: usize = 0;
    while y < 8
        invariant
            y <= 8,
            index < 64,
            !(index == 0),
            w_pawn(board@[index as int]),
            forall|z: int|
                0 <= z < y ==> !(z * 8 + index - 1 < 64 && w_pawn(#[trigger] board@[z * 8 + index - 1]))
                    && !(z * 8 + index + 1 < 64 && w_pawn(board@[z * 8 + index + 1])),
        decreases 8 - y,
    {
        if y * 8 + index - 1 < 64 && is_w_pawn_at(board, y * 8 + index - 1) {
            return false;
        }
        if y * 8 + index + 1 < 64 && is_w_pawn_at(board, y * 8 + index + 1) {
            return false;
        }
        y = y + 1;
    }
    true
}

/// Whether the white pawn on `index` is backward: no white pawn beside it on its row or the
/// rows behind, and a black pawn in front of or diagonally ahead of its advance square.
pub fn is_backwards(board: &[u8; 64], index: usize) -> (r: bool)
    requires
        index < 64,
        backwards_defined(board@, index as int),
    ensures
        r == backwards(board@, index as int),
{
    if !board[index].is_white() || board[index].get_piece() != PieceByte::PAWN {
        return false;
    }
    let c = index % 8;
    let mut y: usize = index / 8;
    while y < 8
        invariant
            index / 8 <= y <= 8,
            index < 64,
            c == index % 8,
            w_pawn(board@[index as int]),
            backwards_defined(board@, index as int),
            forall|z: int| index / 8 <= z < y ==> !#[trigger] backwards_row_stops(board@, index as int, z),
        decreases 8 - y,
    {
        if y * 8 + c + 1 > 63 {
            y = y + 1;
            continue;
        }
        if (board[y * 8 + c - 1].get_piece() == PieceByte::PAWN && board[y * 8 + c - 1].is_white()) || ((
        board[y * 8 - c + 1].get_piece() == PieceByte::PAWN && board[y * 8 + c + 1].is_white())) {
            assert(backwards_row_stops(board@, index as int, y as int));
            return false;
        }
        y = y + 1;
    }
    if index > 17 {
        if (board[index - 17].is_black() && board[index - 17].get_piece() == PieceByte::PAWN) || (
        board[index - 15].is_black() && board[index - 15].get_piece() == PieceByte::PAWN) || (
        board[index - 8].is_black() && board[index - 8].get_piece() == PieceByte::PAWN) {
            return true;
        }
    }
    false
}

fn is_doubled(board: &[u8; 64], index: usize) -> (r: bool)
    requires
        index < 64,
    ensures
        r == doubled(board@, index as int),
{
    if index < 8 {
        return false;
    }
    if board[index - 8].is_white() && board[index - 8].get_piece() == PieceByte::PAWN {
        return true;
    }
    if index > 55 {
        return false;
    }
    if board[index + 8].is_white() && board[index + 8].get_piece() == PieceByte::PAWN {
        return true;
    }
    false
}

fn supported(board: &[u8; 64], index: usize) -> (r: i32)
    requires
        index < 64,
    ensures
        r == support_count(board@, index as int),
{
    let mut v: i32 = 0;
    if index + 9 < 64 && index % 8 < 7 && index % 8 > 0 && board[index + 9].get_piece() == PieceByte::PAWN
        && board[index + 9].is_white() {
        v = v + 1;
    }
    if index + 7 < 64 && index % 8 > 0 && board[index + 7].get_piece() == PieceByte::PAWN
        && board[index + 7].is_white() {
        v = v + 1;
    }
    v
}

fn is_phalanx(board: &[u8; 64], index: usize) -> (r: bool)
    requires
        index < 64,
    ensures
        r == phalanx(board@, index as int),
{
    let mut v: i32 = 0;
    if index + 1 < 64 && board[index + 1].get_piece() == PieceByte::PAWN && board[index + 1].is_white() {
        v = v + 1;
    }
    if index >= 1 && board[index - 1].get_piece() == PieceByte::PAWN && board[index - 1].is_white() {
        v = v + 1;
    }
    v != 0
}

fn is_opposed(board: &[u8; 64], index: usize) -> (r: bool)
    requires
        index < 64,
    ensures
        r == opposed(board@, index as int),
{
    let mut y: usize = 0;
    while y < index / 8
        invariant
            y <= index / 8,
            index < 64,
            forall|z: int| 0 <= z < y ==> !#[trigger] b_pawn(board@[z * 8 + index % 8]),
        decreases index / 8 - y,
    {
        if board[y * 8 + (index % 8)].is_black() && board[y * 8 + (index % 8)].get_piece() == PieceByte::PAWN {
            assert(b_pawn(board@[y * 8 + index % 8]));
            return true;
        }
        y = y + 1;
    }
    false
}

fn is_connected(board: &[u8; 64], index: usize) -> (r: bool)
    requires
        index < 64,
    ensures
        r == (support_count(board@, index as int) > 0 || phalanx(board@, index as int)),
{
    supported(board, index) > 0 || is_phalanx(board, index)
}

fn connected(board: &[u8; 64], index: usize) -> (r: i32)
    requires
        index < 64,
    ensures
        r == connected_bonus(board@, index as int),
        0 <= r <= 300,
{
    let rank = 8 - (index / 8);
    if rank < 2 || rank > 7 || !is_connected(board, index) {
        return 0;
    }
    let opposed: i32 = if is_opposed(board, index) {
        1
    } else {
        0
    };
    let phalanx: i32 = if is_phalanx(board, index) {
        1
    } else {
        0
    };
    let supported = supported(board, index);
    let seed = CONNECTED_SEED[rank - 1];
    assert(0 <= seed <= 86);
    assert(0 <= seed * (2 + phalanx - opposed) <= 258) by (nonlinear_arith)
        requires
            0 <= seed <= 86,
            0 <= 2 + phalanx - opposed <= 3,
    ;
    seed * (2 + phalanx - opposed) + 21 * supported
}

fn unopposed(board: &[u8; 64], index: usize) -> (r: bool)
    requires
        index < 64,
        !(index == 0 && w_pawn(board@[0])),
        !opposed(board@, index as int) && !isolated(board@, index as int) ==> backwards_defined(
            board@,
            index as int,
        ),
    ensures
        r == unopposed_weak(board@, index as int),
{
    if is_opposed(board, index) {
        return false;
    }
    is_isolated(board, index) || is_backwards(board, index)
}

fn blocked(board: &[u8; 64], index: usize) -> (r: i32)
    requires
        index < 64,
    ensures
        r == blocked_value(board@, index as int),
{
    let y = index / 8;
    if y != 2 && y != 3 {
        return 0;
    }
    if !board[index - 8].is_pawn() || board[index - 8].is_white() {
        return 0;
    }
    4 - y as i32
}

/// Whether the pawn on `index` is isolated, with no black pawn in the columns beside it, a
/// black pawn before it and a white pawn behind it in its column.
pub fn is_double_isolated(board: &[u8; 64], index: usize) -> (r: bool)
    requires
        index < 64,
        !(index == 0 && w_pawn(board@[0])),
    ensures
        r == double_isolated(board@, index as int),
{
    if is_isolated(board, index) {
        let indexy = index / 8;
        let indexx = index % 8;
        let mut has_opposed = false;
        let mut has_doubled = false;
        let mut y: usize = 0;
        while y < 8
            invariant
                y <= 8,
                index < 64,
                indexy == index / 8,
                indexx == index % 8,
                isolated(board@, index as int),
                forall|z: int| 0 <= z < y ==> !#[trigger] side_black_pawn(board@, indexx as int, z),
                has_opposed == exists|z: int| 0 <= z < y && z < indexy && #[trigger] column_pawn(board@, indexx as int, z, false),
                has_doubled == exists|z: int| 0 <= z < y && indexy < z && #[trigger] column_pawn(board@, indexx as int, z, true),
            decreases 8 - y,
        {
            proof {
                let t = (y * 8 + indexx) as int;
                assert(column_pawn(board@, indexx as int, y as int, false) == (board@[t] & 7u8 == 2 && byte_is_black(board@[t])));
                assert(column_pawn(board@, indexx as int, y as int, true) == (board@[t] & 7u8 == 2 && byte_is_white(board@[t])));
            }
            if y < indexy && board[y * 8 + indexx].is_pawn() && board[y * 8 + indexx].is_black() {
                has_opposed = true;
            }
            if y > indexy && board[y * 8 + indexx].is_pawn() && board[y * 8 + indexx].is_white() {
                has_doubled = true;
            }
            if indexx != 0 {
                if board[y * 8 + indexx - 1].is_pawn() && board[y * 8 + indexx - 1].is_black() {
                    assert(side_black_pawn(board@, indexx as int, y as int));
                    return false;
                }
            }
            if indexx != 7 {
                if board[y * 8 + indexx + 1].is_pawn() && board[y * 8 + indexx + 1].is_black() {
                    assert(side_black_pawn(board@, indexx as int, y as int));
                    return false;
                }
            }
            y = y + 1;
        }
        proof {
            if has_opposed {
                let z = choose|z: int| 0 <= z < y && z < indexy && #[trigger] column_pawn(board@, indexx as int, z, false);
                assert(0 <= z < indexy && column_pawn(board@, indexx as int, z, false));
            }
            if has_doubled {
                let z = choose|z: int| 0 <= z < y && indexy < z && #[trigger] column_pawn(board@, indexx as int, z, true);
                assert(indexy < z < 8 && column_pawn(board@, indexx as int, z, true));
            }
        }
        return has_doubled && has_opposed;
    }
    false
}

/// White's pawn-structure score: for each white pawn, a penalty for being doubly isolated,
/// isolated or backward, for being doubled, for being unopposed and weak and for being
/// blocked, and the connected bonus.
pub fn midgame_pawn(board: &[u8; 64]) -> (r: i32)
    requires
        pawn_structure_defined(board@),
    ensures
        r == pawn_structure(board@),
        -(64 * 100) <= r <= 64 * 400,
{
    let ghost f = |i: int| if byte_is_white(board@[i]) && board@[i] & 7u8 == 2 { pawn_score(board@, i) } else { 0 };
    let mut value: i32 = 0;
    let mut index: usize = 0;
    while index < 64
        invariant
            index <= 64,
            pawn_structure_defined(board@),
            f == (|i: int| if byte_is_white(board@[i]) && board@[i] & 7u8 == 2 { pawn_score(board@, i) } else { 0 }),
            value == sum_squares(f, index as int),
            -(index * 100) <= value <= index * 400,
        decreases 64 - index,
    {
        let piece = board[index];
        if piece.is_white() && piece.is_pawn() {
            proof {
                assert(w_pawn(board@[index as int]));
                if index < 8 {
                    assert(index != 0);
                }
            }
            let ghost before = value;
            let mut v: i32 = 0;
            if is_double_isolated(board, index) {
                v = v - 11;
            } else if is_isolated(board, index) {
                v = v - 5;
            } else if is_backwards(board, index) {
                v = v - 9;
            }
            if is_doubled(board, index) {
                v = v - 11;
            }
            v = v + connected(board, index);
            v = v - 13 * if unopposed(board, index) {
                1
            } else {
                0
            };
            v = v + match blocked(board, index) {
                1 => -11,
                2 => -3,
                _ => 0,
            };
            value = value + v;
        }
        index = index + 1;
    }
    value
}

} // verus!
