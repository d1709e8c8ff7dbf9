use vstd::prelude::*;
use crate::bits::bit;
use crate::chessbyte::{
    ChessByte, byte_is_white, byte_is_black, byte_is_piece, byte_piece, byte_is_white_kind,
};
use crate::mask::Mask;
use crate::material::sum_squares;
use crate::motion::MotionSet;
use crate::piece::PieceByte;

verus! {

/// Mobility bonus of a knight by number of squares reached.
pub const MOBILITY_KNIGHT_WEIGHTS: [i32; 9] = [-62, -53, -12, -4, 3, 13, 22, 28, 33];
/// Mobility bonus of a bishop.
pub const MOBILITY_BISHOP_WEIGHTS: [i32; 14] = [-48, -20, 16, 26, 38, 51, 55, 63, 63, 68, 81, 81, 91, 98];
/// Mobility bonus of a rook.
pub const MOBILITY_ROOK_WEIGHTS: [i32; 15] = [-60, -20, 2, 3, 3, 11, 22, 31, 40, 40, 41, 48, 57, 57, 62];
/// Mobility bonus of a queen.
pub const MOBILITY_QUEEN_WEIGHTS: [i32; 28] = [-30, -12, -8, -9, 20, 23, 23, 35, 38, 53, 64, 65, 65, 66,
    67, 67, 72, 72, 77, 79, 93, 108, 108, 108, 110, 114, 114, 116];

/// The sum of `f` over the squares of columns `0..nx`, each column taken from row 0 down.
pub open spec fn grid_sum(f: spec_fn(int) -> int, nx: int) -> int
    decreases nx,
{
    if nx <= 0 {
        0
    } else {
        grid_sum(f, nx - 1) + column_sum(f, nx - 1, 8)
    }
}

/// The sum of `f` over rows `0..ny` of column `x`.
pub open spec fn column_sum(f: spec_fn(int) -> int, x: int, ny: int) -> int
    decreases ny,
{
    if ny <= 0 {
        0
    } else {
        column_sum(f, x, ny - 1) + f((ny - 1) * 8 + x)
    }
}

/// The square `d` steps of `step` away from `index`, as an integer (it may be off the board).
pub open spec fn ray_at(index: int, step: int, d: int) -> int {
    index + d * step
}

/// Whether square `d` of the ray holds a piece of the board.
pub open spec fn ray_piece(b: Seq<u8>, index: int, step: int, d: int) -> bool {
    0 <= ray_at(index, step, d) < 64 && byte_is_piece(b[ray_at(index, step, d)])
}

/// Whether steps `1..d` of the ray hold no piece of the board.
pub open spec fn ray_clear(b: Seq<u8>, index: int, step: int, d: int) -> bool {
    forall|e: int| 1 <= e < d ==> !#[trigger] ray_piece(b, index, step, e)
}

/// Whether a square may be counted for mobility: not a white king or queen, not covered by a
/// black pawn on square `index - 9` or `index - 7`, and not a white pawn on ranks 1 to 3 or
/// behind an empty square.
pub open spec fn in_mobility_area(b: Seq<u8>, index: int) -> bool {
    &&& !((b[index] & 7u8 == 5 || b[index] & 7u8 == 4) && byte_is_white(b[index]))
    &&& !(index >= 9 && b[index - 9] & 7u8 == 2 && byte_is_black(b[index - 9]))
    &&& !(index >= 7 && b[index - 7] & 7u8 == 2 && byte_is_black(b[index - 7]))
    &&& !(b[index] & 7u8 == 2 && byte_is_white(b[index]) && (8 - index / 8 < 4 || (index >= 8
        && !byte_is_piece(b[index - 8]))))
}

/// Whether the piece on `index` counts square `s` for mobility: a square of the mobility area
/// that its moves reach, excluding a white queen's square for a knight or bishop.
pub open spec fn counts_square(b: Seq<u8>, moves: &MotionSet, index: int, s: int) -> bool {
    let k = b[index] & 7u8;
    &&& in_mobility_area(b, s)
    &&& if k == 6 || k == 3 {
        !byte_is_white_kind(b[s], 4) && bit(moves.white_piecewise_flat@[index].raw, s)
    } else {
        (k == 1 || k == 4) && bit(moves.white_piecewise_flat@[index].raw, s)
    }
}

/// The mobility of the white piece on `index` other than a king or pawn: the number of
/// squares it counts, column by column; 0 for any other square.
pub open spec fn mobility_of(b: Seq<u8>, moves: &MotionSet, index: int) -> int {
    if !byte_is_piece(b[index]) || byte_is_black(b[index]) || b[index] & 7u8 == 5 || b[index] & 7u8 == 2 {
        0
    } else {
        grid_sum(|s: int| if counts_square(b, moves, index, s) { 1int } else { 0int }, 8)
    }
}

/// Whether a neighbour byte lets a slider see through along a rank or file: empty, black, or
/// a white piece other than a king or pawn.
pub open spec fn cardinal_xrayable(v: u8) -> bool {
    !byte_is_piece(v) || byte_is_black(v) || (byte_is_piece(v) && byte_is_white(v) && !(v & 7u8 == 5)
        && !(v & 7u8 == 2))
}

/// Whether a neighbour byte lets a slider see through along a diagonal: empty, black, or
/// neither a white pawn nor a white king.
pub open spec fn diagonal_xrayable(v: u8) -> bool {
    !byte_is_piece(v) || byte_is_black(v) || !(byte_is_white_kind(v, 2) || byte_is_white_kind(v, 5))
}

/// The number of see-through neighbours of `index` on its rank and file.
pub open spec fn cardinal_count(b: Seq<u8>, index: int) -> int {
    let xi = index % 8;
    let yi = index / 8;
    (if yi > 0 && cardinal_xrayable(b[(yi - 1) * 8 + xi]) { 1int } else { 0int })
        + (if yi < 7 && cardinal_xrayable(b[(yi + 1) * 8 + xi]) { 1int } else { 0int })
        + (if xi > 0 && cardinal_xrayable(b[index - 1]) { 1int } else { 0int })
        + (if xi < 7 && cardinal_xrayable(b[index + 1]) { 1int } else { 0int })
}

/// The number of see-through neighbours of `index` on its diagonals.
pub open spec fn diagonal_count(b: Seq<u8>, index: int) -> int {
    let xi = index % 8;
    let yi = index / 8;
    (if yi > 0 && xi > 0 && diagonal_xrayable(b[index - 9]) { 1int } else { 0int })
        + (if yi > 0 && xi < 7 && diagonal_xrayable(b[index - 7]) { 1int } else { 0int })
        + (if yi < 7 && xi > 0 && diagonal_xrayable(b[index + 7]) { 1int } else { 0int })
        + (if yi < 7 && xi < 7 && diagonal_xrayable(b[index + 9]) { 1int } else { 0int })
}

/// The mobility of a slider: its mobility, plus one for a rook or queen with a see-through
/// neighbour on its rank or file and one for a bishop or queen with one on its diagonals; 0 for
/// a king or pawn.
pub open spec fn mobility_single_of(b: Seq<u8>, moves: &MotionSet, index: int) -> int {
    let k = b[index] & 7u8;
    if k == 5 || k == 2 {
        0
    } else {
        mobility_of(b, moves, index) + (if (k == 1 || k == 4) && cardinal_count(b, index) > 0 {
            1int
        } else {
            0int
        }) + (if (k == 3 || k == 4) && diagonal_count(b, index) > 0 {
            1int
        } else {
            0int
        })
    }
}

/// The mobility bonus of the piece on a square: by kind, the table entry of its mobility
/// (knights) or slider mobility (bishops, rooks, queens), capped at the table's last entry.
pub open spec fn square_bonus(b: Seq<u8>, moves: &MotionSet, i: int) -> int {
    let m = mobility_of(b, moves, i);
    let ms = mobility_single_of(b, moves, i);
    if !(byte_is_piece(b[i]) && byte_is_white(b[i])) {
        0
    } else {
        match byte_piece(b[i]) {
            PieceByte::KNIGHT => MOBILITY_KNIGHT_WEIGHTS@[if m < 8 { m } else { 8 }] as int,
            PieceByte::BISHOP => MOBILITY_BISHOP_WEIGHTS@[if ms < 13 { ms } else { 13 }] as int,
            PieceByte::ROOK => MOBILITY_ROOK_WEIGHTS@[if ms < 14 { ms } else { 14 }] as int,
            PieceByte::QUEEN => MOBILITY_QUEEN_WEIGHTS@[if ms < 27 { ms } else { 27 }] as int,
            _ => 0,
        }
    }
}

/// White's mobility bonus.
pub open spec fn mobility_bonus(b: Seq<u8>, moves: &MotionSet) -> int {
    sum_squares(|i: int| square_bonus(b, moves, i), 64)
}

/// The direction of a pin of the piece on `index` against the white king; always 0: the scan
/// for the pinning piece walks the same ray as the scan that found the king, so it stops on
/// the king.
pub fn pinned_direction(board: &[u8; 64], index: usize) -> (r: i32)
    requires
        index < 64,
    ensures
        r == 0,
{
    let color: i32 = if board[index].is_white() {
        1
    } else {
        -1
    };
    let xi = (index % 8) as i32;
    let yi = (index / 8) as i32;
    let mut i: i32 = 0;
    while i < 8
        invariant
            0 <= i <= 8,
            index < 64,
            xi == index % 8,
            yi == index / 8,
            color == 1 || color == -1,
        decreases 8 - i,
    {
        let add: i32 = if i > 3 {
            1
        } else {
            0
        };
        let x: i32 = ((i + add) % 3) - 1;
        let y: i32 = ((i + add) / 3) - 1;
        let ghost step: int = y * 8 + x;
        let mut king = false;
        let mut d: i32 = 1;
        let ghost mut first: int = 8;
        while d < 8
            invariant_except_break
                ray_clear(board@, index as int, step, d as int),
                !king,
            invariant
                1 <= d <= 8,
                -1 <= x <= 1,
                -1 <= y <= 1,
                step == y * 8 + x,
                index < 64,
                xi == index % 8,
                yi == index / 8,
            ensures
                king ==> 1 <= first < 8 && ray_clear(board@, index as int, step, first) && ray_piece(
                    board@,
                    index as int,
                    step,
                    first,
                ) && byte_is_white(board@[ray_at(index as int, step, first)]),
            decreases 8 - d,
        {
            assert(-8 <= d * x <= 8 && -8 <= d * y <= 8) by (nonlinear_arith)
                requires
                    1 <= d <= 8,
                    -1 <= x <= 1,
                    -1 <= y <= 1,
            ;
            let sqx = xi + d * x;
            let sqy = yi + d * y;
            let ghost at = (sqy * 8 + sqx) as int;
            proof {
                assert(at == ray_at(index as int, step, d as int)) by (nonlinear_arith)
                    requires
                        at == (yi + d * y) * 8 + (xi + d * x),
                        index == yi * 8 + xi,
                        step == y * 8 + x,
                ;
            }
            if sqy * 8 + sqx >= 0 && sqy * 8 + sqx < 64 {
                let sqi = (sqy * 8 + sqx) as usize;
                if board[sqi].is_king() && board[sqi].is_white() {
                    king = true;
                }
                if board[sqi].is_piece() {
                    proof {
                        first = d as int;
                    }
                    break;
                }
            }
            d = d + 1;
        }
        if king {
            let mut d: i32 = 1;
            while d < 8
                invariant
                    1 <= d <= first,
                    first < 8,
                    -1 <= x <= 1,
                    -1 <= y <= 1,
                    step == y * 8 + x,
                    index < 64,
                    xi == index % 8,
                    yi == index / 8,
                    ray_clear(board@, index as int, step, first),
                    ray_piece(board@, index as int, step, first),
                    byte_is_white(board@[ray_at(index as int, step, first)]),
                decreases 8 - d,
            {
                assert(-8 <= d * x <= 8 && -8 <= d * y <= 8) by (nonlinear_arith)
                    requires
                        1 <= d <= 8,
                        -1 <= x <= 1,
                        -1 <= y <= 1,
                ;
                let sqx = xi + d * x;
                let sqy = yi + d * y;
                let ghost at = (sqy * 8 + sqx) as int;
                proof {
                    assert(at == ray_at(index as int, step, d as int)) by (nonlinear_arith)
                        requires
                            at == (yi + d * y) * 8 + (xi + d * x),
                            index == yi * 8 + xi,
                            step == y * 8 + x,
                    ;
                    if d < first {
                        assert(!ray_piece(board@, index as int, step, d as int));
                    }
                }
                if sqy * 8 + sqx >= 0 && sqy * 8 + sqx < 64 {
                    let sqi = (sqy * 8 + sqx) as usize;
                    if board[sqi].is_black() {
                        if board[sqi].is_queen() || (board[sqi].is_bishop() && x * y != 0) || (
                        board[sqi].is_rook() && x * y == 0) {
                            return (x + y * 3) * color;
                        }
                    }
                    if board[sqi].is_piece() {
                        break;
                    }
                }
                d = d + 1;
            }
        }
        i = i + 1;
    }
    0
}

/// Whether a square may be counted for mobility: 1 when it may, 0 when not.
pub fn mobility_area(board: &[u8; 64], index: usize) -> (r: i32)
    requires
        index < 64,
    ensures
        r == (if in_mobility_area(board@, index as int) { 1int } else { 0int }),
{
    if (board[index].is_king() || board[index].is_queen()) && board[index].is_white() {
        return 0;
    }
    if index >= 9 {
        let subbed = index - 9;
        if board[subbed].is_pawn() && board[subbed].is_black() {
            return 0;
        }
    }
    if index >= 7 {
        let subbed = index - 7;
        if board[subbed].is_pawn() && board[subbed].is_black() {
            return 0;
        }
    }
    if board[index].is_pawn() && board[index].is_white() {
        let rank = 8 - (index / 8);
        if rank < 4 {
            return 0;
        }
        if index >= 8 {
            let subbed = index - 8;
            if !board[subbed].is_piece() {
                return 0;
            }
        }
    }
    if pinned_direction(board, index) != 0 {
        return 0;
    }
    1
}

/// The mobility of the white piece on `index` (not a king or pawn): the squares of the
/// mobility area that its moves reach, a knight or bishop not counting a white queen's square.
pub fn mobility(board: &[u8; 64], index: usize, moves: &MotionSet) -> (r: i32)
    requires
        index < 64,
    ensures
        r == mobility_of(board@, moves, index as int),
        0 <= r <= 64,
{
    let mut value: i32 = 0;
    if !board[index].is_piece() || board[index].is_black() || board[index].is_king() || board[index].is_pawn() {
        return 0;
    }
    let ghost f = |s: int| if counts_square(board@, moves, index as int, s) { 1int } else { 0int };
    let mut x: usize = 0;
    while x < 8
        invariant
            x <= 8,
            index < 64,
            f == (|s: int| if counts_square(board@, moves, index as int, s) { 1int } else { 0int }),
            value == grid_sum(f, x as int),
            0 <= value <= x * 8,
        decreases 8 - x,
    {
        let mut y: usize = 0;
        let ghost start = value;
        while y < 8
            invariant
                y <= 8,
                x < 8,
                index < 64,
                f == (|s: int| if counts_square(board@, moves, index as int, s) { 1int } else { 0int }),
                start == grid_sum(f, x as int),
                value == start + column_sum(f, x as int, y as int),
                0 <= value - start <= y,
                0 <= start <= x * 8,
            decreases 8 - y,
        {
            let s = y * 8 + x;
            if mobility_area(board, s) == 0 {
                y = y + 1;
                continue;
            }
            if (board[index].is_knight() || board[index].is_bishop()) && !board[s].is_w_queen() {
                if moves.white_piecewise_flat[index].and(Mask::from_index(s)).any() {
                    value = value + 1;
                }
            } else if board[index].is_rook() || board[index].is_queen() {
                if moves.white_piecewise_flat[index].and(Mask::from_index(s)).any() {
                    value = value + 1;
                }
            }
            proof {
                crate::bits::lemma_and_single(moves.white_piecewise_flat@[index as int].raw, s as int);
            }
            y = y + 1;
        }
        x = x + 1;
    }
    value
}

/// The number of see-through neighbours of `index` on its diagonals.
fn diagonal_surrounding_xrayable_count(board: &[u8; 64], index: usize) -> (r: i32)
    requires
        index < 64,
    ensures
        r == diagonal_count(board@, index as int),
{
    let xi = index % 8;
    let yi = index / 8;
    let mut count: i32 = 0;
    if yi > 0 {
        if xi > 0 && diagonal_see_through(board[index - 9]) {
            count = count + 1;
        }
        if xi < 7 && diagonal_see_through(board[index - 7]) {
            count = count + 1;
        }
    }
    if yi < 7 {
        if xi > 0 && diagonal_see_through(board[index + 7]) {
            count = count + 1;
        }
        if xi < 7 && diagonal_see_through(board[index + 9]) {
            count = count + 1;
        }
    }
    count
}

fn diagonal_see_through(byte: u8) -> (r: bool)
    ensures
        r == diagonal_xrayable(byte),
{
    !byte.is_piece() || byte.is_black() || !(byte.is_w_pawn() || byte.is_w_king())
}

fn cardinal_see_through(byte: u8) -> (r: bool)
    ensures
        r == cardinal_xrayable(byte),
{
    if !byte.is_piece() || byte.is_black() {
        true
    } else if byte.is_piece() && byte.is_white() {
        !byte.is_king() && !byte.is_pawn()
    } else {
        false
    }
}

/// The number of see-through neighbours of `index` on its rank and file.
fn cardinal_surrounding_xrayable_count(board: &[u8; 64], index: usize) -> (r: i32)
    requires
        index < 64,
    ensures
        r == cardinal_count(board@, index as int),
{
    let xi = index % 8;
    let yi = index / 8;
    let mut count: i32 = 0;
    if yi > 0 && cardinal_see_through(board[(yi - 1) * 8 + xi]) {
        count = count + 1;
    }
    if yi < 7 && cardinal_see_through(board[(yi + 1) * 8 + xi]) {
        count = count + 1;
    }
    if xi > 0 && cardinal_see_through(board[index - 1]) {
        count = count + 1;
    }
    if xi < 7 && cardinal_see_through(board[index + 1]) {
        count = count + 1;
    }
    count
}

/// The mobility of a slider, one more for a see-through neighbour in each of its directions;
/// 0 for a king or pawn.
pub fn mobility_single(board: &[u8; 64], index: usize, moves: &MotionSet) -> (r: i32)
    requires
        index < 64,
    ensures
        r == mobility_single_of(board@, moves, index as int),
        0 <= r <= 66,
{
    if board[index].is_king() || board[index].is_pawn() {
        return 0;
    }
    let mut value = mobility(board, index, moves);
    if (board[index].is_rook() || board[index].is_queen()) && cardinal_surrounding_xrayable_count(board, index) > 0 {
        value = value + 1;
    }
    if (board[index].is_bishop() || board[index].is_queen()) && diagonal_surrounding_xrayable_count(board, index) > 0 {
        value = value + 1;
    }
    value
}

/// White's mobility bonus: for each white knight, bishop, rook and queen, the table entry of
/// its mobility, capped at the table's last entry.
pub fn bonus(board: &[u8; 64], moves: &MotionSet) -> (r: i32)
    ensures
        r == mobility_bonus(board@, moves),
        -(64 * 100) <= r <= 64 * 200,
{
    let ghost f = |i: int| square_bonus(board@, moves, i);
    let mut value: i32 = 0;
    let mut i: usize = 0;
    while i < 64
        invariant
            i <= 64,
            f == (|i: int| square_bonus(board@, moves, i)),
            value == sum_squares(f, i as int),
            -(i * 100) <= value <= i * 200,
        decreases 64 - i,
    {
        if board[i].is_piece() && board[i].is_white() {
            let v: i32 = match board[i].get_piece() {
                PieceByte::KNIGHT => {
                    let m = mobility(board, i, moves);
                    MOBILITY_KNIGHT_WEIGHTS[if m < 8 { m as usize } else { 8 }]
                },
                PieceByte::BISHOP => {
                    let m = mobility_single(board, i, moves);
                    MOBILITY_BISHOP_WEIGHTS[if m < 13 { m as usize } else { 13 }]
                },
                PieceByte::ROOK => {
                    let m = mobility_single(board, i, moves);
                    MOBILITY_ROOK_WEIGHTS[if m < 14 { m as usize } else { 14 }]
                },
                PieceByte::QUEEN => {
                    let m = mobility_single(board, i, moves);
                    MOBILITY_QUEEN_WEIGHTS[if m < 27 { m as usize } else { 27 }]
                },
                _ => 0,
            };
            value = value + v;
        }
        i = i + 1;
    }
    value
}

} // verus!
