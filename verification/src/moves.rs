use vstd::prelude::*;
use crate::bits::{bit, single, group_bits, mask_of, lemma_is_mask_of, lemma_and_single};
use crate::mask::{Mask, point_mask};
use crate::piece::Parity;
use crate::point::{Point, on_board};

verus! {

broadcast use group_bits;

// Squares are indices `y * 8 + x`. The moves of a piece are given as two masks: the squares it
// can move to (empty, or holding an enemy) and the squares of own pieces it defends.

/// The square `d` steps from `(x, y)` in direction `(dx, dy)`.
pub open spec fn ray_square(x: int, y: int, dx: int, dy: int, d: int) -> int {
    (y + d * dy) * 8 + (x + d * dx)
}

/// Whether the square `d` steps away lies on the board.
pub open spec fn ray_on_board(x: int, y: int, dx: int, dy: int, d: int) -> bool {
    on_board(x + d * dx, y + d * dy)
}

/// Whether the steps before step `d` are all on the board and empty.
pub open spec fn ray_open(x: int, y: int, dx: int, dy: int, d: int, pieces: u64) -> bool
    decreases d,
{
    if d <= 1 {
        true
    } else {
        ray_open(x, y, dx, dy, d - 1, pieces) && ray_on_board(x, y, dx, dy, d - 1) && !bit(
            pieces,
            ray_square(x, y, dx, dy, d - 1),
        )
    }
}

/// Whether step `d` of the ray is a move: reachable, and empty or an enemy.
pub open spec fn ray_step_move(x: int, y: int, dx: int, dy: int, d: int, enemy: u64, pieces: u64) -> bool {
    let s = ray_square(x, y, dx, dy, d);
    ray_open(x, y, dx, dy, d, pieces) && ray_on_board(x, y, dx, dy, d) && (!bit(pieces, s) || bit(
        enemy,
        s,
    ))
}

/// Whether step `d` of the ray is a defended own piece: reachable and occupied, not by an enemy.
pub open spec fn ray_step_defense(x: int, y: int, dx: int, dy: int, d: int, enemy: u64, pieces: u64) -> bool {
    let s = ray_square(x, y, dx, dy, d);
    ray_open(x, y, dx, dy, d, pieces) && ray_on_board(x, y, dx, dy, d) && bit(pieces, s) && !bit(
        enemy,
        s,
    )
}

/// Whether square `s` is a move along the ray within its first `n - 1` steps.
pub open spec fn ray_move_upto(x: int, y: int, dx: int, dy: int, enemy: u64, pieces: u64, s: int, n: int) -> bool {
    exists|d: int|
        1 <= d < n && #[trigger] ray_square(x, y, dx, dy, d) == s && ray_step_move(
            x,
            y,
            dx,
            dy,
            d,
            enemy,
            pieces,
        )
}

/// Whether square `s` is a defended own piece along the ray within its first `n - 1` steps.
pub open spec fn ray_defense_upto(x: int, y: int, dx: int, dy: int, enemy: u64, pieces: u64, s: int, n: int) -> bool {
    exists|d: int|
        1 <= d < n && #[trigger] ray_square(x, y, dx, dy, d) == s && ray_step_defense(
            x,
            y,
            dx,
            dy,
            d,
            enemy,
            pieces,
        )
}

/// The moves of a slider from square `index` along one direction.
pub open spec fn ray_move_mask(index: int, dx: int, dy: int, enemy: u64, pieces: u64) -> u64 {
    mask_of(|s: int| ray_move_upto(index % 8, index / 8, dx, dy, enemy, pieces, s, 9))
}

/// The defended own pieces of a slider from square `index` along one direction.
pub open spec fn ray_defense_mask(index: int, dx: int, dy: int, enemy: u64, pieces: u64) -> u64 {
    mask_of(|s: int| ray_defense_upto(index % 8, index / 8, dx, dy, enemy, pieces, s, 9))
}

/// The bishop moves: the four diagonal rays.
pub open spec fn bishop_masks(index: int, enemy: u64, pieces: u64) -> (u64, u64) {
    (
        ray_move_mask(index, -1, -1, enemy, pieces) | ray_move_mask(index, -1, 1, enemy, pieces)
            | ray_move_mask(index, 1, 1, enemy, pieces) | ray_move_mask(index, 1, -1, enemy, pieces),
        ray_defense_mask(index, -1, -1, enemy, pieces) | ray_defense_mask(index, -1, 1, enemy, pieces)
            | ray_defense_mask(index, 1, 1, enemy, pieces) | ray_defense_mask(
            index,
            1,
            -1,
            enemy,
            pieces,
        ),
    )
}

/// The rook moves: the four straight rays.
pub open spec fn rook_masks(index: int, enemy: u64, pieces: u64) -> (u64, u64) {
    (
        ray_move_mask(index, 0, 1, enemy, pieces) | ray_move_mask(index, 0, -1, enemy, pieces)
            | ray_move_mask(index, 1, 0, enemy, pieces) | ray_move_mask(index, -1, 0, enemy, pieces),
        ray_defense_mask(index, 0, 1, enemy, pieces) | ray_defense_mask(index, 0, -1, enemy, pieces)
            | ray_defense_mask(index, 1, 0, enemy, pieces) | ray_defense_mask(
            index,
            -1,
            0,
            enemy,
            pieces,
        ),
    )
}

/// The queen moves: rook and bishop together.
pub open spec fn queen_masks(index: int, enemy: u64, pieces: u64) -> (u64, u64) {
    (
        rook_masks(index, enemy, pieces).0 | bishop_masks(index, enemy, pieces).0,
        rook_masks(index, enemy, pieces).1 | bishop_masks(index, enemy, pieces).1,
    )
}

/// On an empty board, every step of a ray up to one on the board is open.
proof fn lemma_empty_ray_open(x: int, y: int, dx: int, dy: int, d: int)
    requires
        0 <= x < 8,
        0 <= y < 8,
        -1 <= dx <= 1,
        -1 <= dy <= 1,
        1 <= d,
        ray_on_board(x, y, dx, dy, d),
    ensures
        ray_open(x, y, dx, dy, d, 0u64),
    decreases d,
{
    if d > 1 {
        assert(ray_on_board(x, y, dx, dy, d - 1)) by {
            assert(0 <= x + (d - 1) * dx < 8) by (nonlinear_arith)
                requires
                    0 <= x < 8,
                    0 <= x + d * dx < 8,
                    -1 <= dx <= 1,
                    1 < d,
            ;
            assert(0 <= y + (d - 1) * dy < 8) by (nonlinear_arith)
                requires
                    0 <= y < 8,
                    0 <= y + d * dy < 8,
                    -1 <= dy <= 1,
                    1 < d,
            ;
        }
        lemma_empty_ray_open(x, y, dx, dy, d - 1);
        assert(!bit(0u64, ray_square(x, y, dx, dy, d - 1)));
    }
}

/// On an empty board, a ray's moves are the squares it reaches on the board.
proof fn lemma_empty_ray(index: int, dx: int, dy: int, s: int)
    requires
        0 <= index < 64,
        0 <= s < 64,
        -1 <= dx <= 1,
        -1 <= dy <= 1,
    ensures
        bit(ray_move_mask(index, dx, dy, 0u64, 0u64), s) == exists|d: int|
            1 <= d < 9 && #[trigger] ray_square(index % 8, index / 8, dx, dy, d) == s && ray_on_board(
                index % 8,
                index / 8,
                dx,
                dy,
                d,
            ),
{
    let x = index % 8;
    let y = index / 8;
    crate::bits::lemma_mask_of(|t: int| ray_move_upto(index % 8, index / 8, dx, dy, 0u64, 0u64, t, 9));
    if exists|d: int| 1 <= d < 9 && #[trigger] ray_square(x, y, dx, dy, d) == s && ray_on_board(x, y, dx, dy, d) {
        let d = choose|d: int| 1 <= d < 9 && #[trigger] ray_square(x, y, dx, dy, d) == s && ray_on_board(x, y, dx, dy, d);
        lemma_empty_ray_open(x, y, dx, dy, d);
        assert(ray_step_move(x, y, dx, dy, d, 0u64, 0u64));
    }
}

/// On an empty board a rook reaches exactly the other squares of its row and of its column.
pub proof fn lemma_rook_empty_board(index: int, s: int)
    requires
        0 <= index < 64,
        0 <= s < 64,
    ensures
        bit(rook_masks(index, 0u64, 0u64).0, s) == (s != index && (s % 8 == index % 8 || s / 8 == index / 8)),
{
    let x = index % 8;
    let y = index / 8;
    lemma_empty_ray(index, 0, 1, s);
    lemma_empty_ray(index, 0, -1, s);
    lemma_empty_ray(index, 1, 0, s);
    lemma_empty_ray(index, -1, 0, s);
    if s != index && s % 8 == x {
        if s / 8 > y {
            assert(ray_square(x, y, 0, 1, s / 8 - y) == s);
        } else {
            assert(ray_square(x, y, 0, -1, y - s / 8) == s);
        }
    }
    if s != index && s / 8 == y {
        if s % 8 > x {
            assert(ray_square(x, y, 1, 0, s % 8 - x) == s);
        } else {
            assert(ray_square(x, y, -1, 0, x - s % 8) == s);
        }
    }
}

/// The column and row of a ray's square on the board.
proof fn lemma_ray_coords(x: int, y: int, dx: int, dy: int, d: int)
    requires
        ray_on_board(x, y, dx, dy, d),
    ensures
        ray_square(x, y, dx, dy, d) % 8 == x + d * dx,
        ray_square(x, y, dx, dy, d) / 8 == y + d * dy,
{
    let a = x + d * dx;
    let b = y + d * dy;
    assert((b * 8 + a) % 8 == a && (b * 8 + a) / 8 == b) by (nonlinear_arith)
        requires
            0 <= a < 8,
            0 <= b < 8,
    ;
}

/// A diagonal ray's square on the board is as many columns away as rows.
proof fn lemma_diagonal_square(index: int, dx: int, dy: int, s: int)
    requires
        0 <= index < 64,
        dx == 1 || dx == -1,
        dy == 1 || dy == -1,
        exists|d: int|
            1 <= d < 9 && #[trigger] ray_square(index % 8, index / 8, dx, dy, d) == s && ray_on_board(
                index % 8,
                index / 8,
                dx,
                dy,
                d,
            ),
    ensures
        s != index,
        s % 8 - index % 8 == s / 8 - index / 8 || s % 8 - index % 8 == index / 8 - s / 8,
{
    let x = index % 8;
    let y = index / 8;
    let d = choose|d: int| 1 <= d < 9 && #[trigger] ray_square(x, y, dx, dy, d) == s && ray_on_board(x, y, dx, dy, d);
    lemma_ray_coords(x, y, dx, dy, d);
    assert(d * dx == d || d * dx == -d) by (nonlinear_arith)
        requires
            dx == 1 || dx == -1,
    ;
    assert(d * dy == d || d * dy == -d) by (nonlinear_arith)
        requires
            dy == 1 || dy == -1,
    ;
}

/// On an empty board a bishop reaches exactly the other squares of its two diagonals.
#[verifier::rlimit(40)]
pub proof fn lemma_bishop_empty_board(index: int, s: int)
    requires
        0 <= index < 64,
        0 <= s < 64,
    ensures
        bit(bishop_masks(index, 0u64, 0u64).0, s) == (s != index && (s % 8 - index % 8 == s / 8 - index / 8 || s % 8
            - index % 8 == index / 8 - s / 8)),
{
    let x = index % 8;
    let y = index / 8;
    lemma_empty_ray(index, -1, -1, s);
    lemma_empty_ray(index, -1, 1, s);
    lemma_empty_ray(index, 1, 1, s);
    lemma_empty_ray(index, 1, -1, s);
    let m1 = ray_move_mask(index, -1, -1, 0u64, 0u64);
    let m2 = ray_move_mask(index, -1, 1, 0u64, 0u64);
    let m3 = ray_move_mask(index, 1, 1, 0u64, 0u64);
    let m4 = ray_move_mask(index, 1, -1, 0u64, 0u64);
    assert(bishop_masks(index, 0u64, 0u64).0 == m1 | m2 | m3 | m4);
    assert(bit(m1 | m2 | m3 | m4, s) == (bit(m1, s) || bit(m2, s) || bit(m3, s) || bit(m4, s)));
    if bit(m1, s) {
        lemma_diagonal_square(index, -1, -1, s);
    }
    if bit(m2, s) {
        lemma_diagonal_square(index, -1, 1, s);
    }
    if bit(m3, s) {
        lemma_diagonal_square(index, 1, 1, s);
    }
    if bit(m4, s) {
        lemma_diagonal_square(index, 1, -1, s);
    }
    let ex = s % 8 - x;
    let ey = s / 8 - y;
    if s != index && (ex == ey || ex == -ey) {
        if ex > 0 && ey > 0 {
            assert(ray_square(x, y, 1, 1, ex) == s);
            assert(bit(m3, s));
        } else if ex > 0 && ey < 0 {
            assert(ray_square(x, y, 1, -1, ex) == s);
            assert(bit(m4, s));
        } else if ex < 0 && ey > 0 {
            assert(ray_square(x, y, -1, 1, -ex) == s);
            assert(bit(m2, s));
        } else {
            assert(ray_square(x, y, -1, -1, -ex) == s);
            assert(bit(m1, s));
        }
    }
}

/// The squares a knight on `index` jumps to (on the board).
pub open spec fn knight_targets(index: int) -> u64 {
    let x = index % 8;
    let y = index / 8;
    point_mask(x - 2, y - 1) | point_mask(x - 2, y + 1) | point_mask(x - 1, y - 2) | point_mask(
        x - 1,
        y + 2,
    ) | point_mask(x + 1, y - 2) | point_mask(x + 1, y + 2) | point_mask(x + 2, y - 1)
        | point_mask(x + 2, y + 1)
}

/// Whether square `s` is a knight's jump from square `index`: one column and two rows away, or
/// two columns and one row.
pub open spec fn knight_jump(index: int, s: int) -> bool {
    let dx = s % 8 - index % 8;
    let dy = s / 8 - index / 8;
    ||| ((dx == 1 || dx == -1) && (dy == 2 || dy == -2))
    ||| ((dx == 2 || dx == -2) && (dy == 1 || dy == -1))
}

/// The squares a knight jumps to are exactly the squares of the board one column and two rows,
/// or two columns and one row, away; its moves are those that do not hold an own piece (a
/// piece that is not an enemy), and its defended squares those that do.
pub proof fn lemma_knight_jumps(index: int, s: int, enemy: u64, pieces: u64)
    requires
        0 <= index < 64,
        0 <= s < 64,
    ensures
        bit(knight_targets(index), s) == knight_jump(index, s),
        bit(knight_masks(index, enemy, pieces).0, s) == (knight_jump(index, s) && !(bit(pieces, s) && !bit(enemy, s))),
        bit(knight_masks(index, enemy, pieces).1, s) == (knight_jump(index, s) && bit(pieces, s) && !bit(enemy, s)),
{
    let x = index % 8;
    let y = index / 8;
    assert forall|dx: int, dy: int| -2 <= dx <= 2 && -2 <= dy <= 2 implies #[trigger] bit(point_mask(x + dx, y + dy), s)
        == (on_board(x + dx, y + dy) && s % 8 == x + dx && s / 8 == y + dy) by {
        if on_board(x + dx, y + dy) {
            let t = (y + dy) * 8 + (x + dx);
            assert(bit(single(t), s) == (t == s));
            assert((t == s) == (s % 8 == x + dx && s / 8 == y + dy));
        } else {
            assert(!bit(0u64, s));
        }
    }
    assert(bit(point_mask(x - 2, y - 1), s) == (on_board(x - 2, y - 1) && s % 8 == x - 2 && s / 8 == y - 1));
    assert(bit(point_mask(x - 2, y + 1), s) == (on_board(x - 2, y + 1) && s % 8 == x - 2 && s / 8 == y + 1));
    assert(bit(point_mask(x - 1, y - 2), s) == (on_board(x - 1, y - 2) && s % 8 == x - 1 && s / 8 == y - 2));
    assert(bit(point_mask(x - 1, y + 2), s) == (on_board(x - 1, y + 2) && s % 8 == x - 1 && s / 8 == y + 2));
    assert(bit(point_mask(x + 1, y - 2), s) == (on_board(x + 1, y - 2) && s % 8 == x + 1 && s / 8 == y - 2));
    assert(bit(point_mask(x + 1, y + 2), s) == (on_board(x + 1, y + 2) && s % 8 == x + 1 && s / 8 == y + 2));
    assert(bit(point_mask(x + 2, y - 1), s) == (on_board(x + 2, y - 1) && s % 8 == x + 2 && s / 8 == y - 1));
    assert(bit(point_mask(x + 2, y + 1), s) == (on_board(x + 2, y + 1) && s % 8 == x + 2 && s / 8 == y + 1));
}

/// The knight moves: its targets that are not own pieces, and those that are.
pub open spec fn knight_masks(index: int, enemy: u64, pieces: u64) -> (u64, u64) {
    let t = knight_targets(index);
    (t & !(!enemy & pieces), t & pieces & !enemy)
}

/// Whether `s` is one of the up to eight squares next to `index`.
pub open spec fn king_adjacent(index: int, s: int) -> bool {
    let dx = s % 8 - index % 8;
    let dy = s / 8 - index / 8;
    0 <= s < 64 && s != index && -1 <= dx <= 1 && -1 <= dy <= 1
}

/// The king moves: adjacent squares that are empty or enemies, and adjacent own pieces.
pub open spec fn king_masks(index: int, enemy: u64, pieces: u64) -> (u64, u64) {
    (
        mask_of(
            |s: int| king_adjacent(index, s) && (!bit(pieces, s) || bit(enemy, s)),
        ),
        mask_of(|s: int| king_adjacent(index, s) && bit(pieces, s) && !bit(enemy, s)),
    )
}

/// A king reaches exactly the squares of the board next to its own, one column and one row away
/// at most: those without an own piece are its moves and those with one its defended squares.
pub proof fn lemma_king_steps(index: int, s: int, enemy: u64, pieces: u64)
    requires
        0 <= index < 64,
        0 <= s < 64,
    ensures
        bit(king_masks(index, enemy, pieces).0, s) == (s != index && -1 <= s % 8 - index % 8 <= 1 && -1 <= s / 8
            - index / 8 <= 1 && !(bit(pieces, s) && !bit(enemy, s))),
        bit(king_masks(index, enemy, pieces).1, s) == (s != index && -1 <= s % 8 - index % 8 <= 1 && -1 <= s / 8
            - index / 8 <= 1 && bit(pieces, s) && !bit(enemy, s)),
{
    crate::bits::lemma_mask_of(|t: int| king_adjacent(index, t) && (!bit(pieces, t) || bit(enemy, t)));
    crate::bits::lemma_mask_of(|t: int| king_adjacent(index, t) && bit(pieces, t) && !bit(enemy, t));
}

/// A pawn on rows 1 to 6 whose square ahead (a row nearer row 0 for white, farther for black)
/// is empty can step onto it; when that square holds a piece it has no forward move at all.
pub proof fn lemma_pawn_step(index: int, enemy: u64, pieces: u64, white: bool, ignore_diag: bool, enpassant: u64)
    requires
        8 <= index < 56,
    ensures
        ({
            let ahead = if white { index - 8 } else { index + 8 };
            let m = pawn_masks(index, enemy, pieces, if white { Parity::WHITE } else { Parity::BLACK }, ignore_diag, enpassant).0;
            !bit(pieces, ahead) ==> bit(m, ahead)
        }),
{
    let ahead = if white { index - 8 } else { index + 8 };
    let pos = single(index);
    let basic: u64 = if white { pos >> 8u64 } else { pos << 8u64 };
    assert forall|j: int| 0 <= j < 64 implies #[trigger] bit(basic, j) == (j == ahead) by {
        if white {
            assert(bit(pos >> 8u64, j) == (0 <= j < 64 && bit(pos, j + 8)));
            assert(bit(single(index), j + 8) == (index == j + 8));
        } else {
            assert(bit(pos << 8u64, j) == (0 <= j < 64 && j >= 8 && bit(pos, j - 8)));
            assert(bit(single(index), j - 8) == (index == j - 8));
        }
    }
    if !bit(pieces, ahead) {
        assert(pieces & basic == 0) by {
            assert forall|j: int| 0 <= j < 64 implies !#[trigger] bit(pieces & basic, j) by {
                assert(bit(pieces & basic, j) == (bit(pieces, j) && bit(basic, j)));
            }
            crate::bits::lemma_no_bits_zero(pieces & basic);
        }
        let m = pawn_masks(index, enemy, pieces, if white { Parity::WHITE } else { Parity::BLACK }, ignore_diag, enpassant).0;
        assert(bit(basic, ahead));
    }
}

/// The pawn moves of a pawn on `index` of side `parity` (white moves towards row 0).
/// Off rows 1..7 it has none. One step ahead if that square is empty, two from row 1 or 6
/// when both are empty and the second lies on the board. Each forward diagonal on the board
/// is a move when it holds an enemy, when `ignore_diag` is set, or when it is the en-passant
/// square and the en-passant square is empty; it is a defence when it holds an own piece.
pub open spec fn pawn_masks(
    index: int,
    enemy: u64,
    pieces: u64,
    parity: Parity,
    ignore_diag: bool,
    enpassant: u64,
) -> (u64, u64) {
    if index < 8 || index > 55 {
        (0u64, 0u64)
    } else {
        let pos = single(index);
        let basic: u64 = if parity == Parity::WHITE {
            pos >> 8u64
        } else {
            pos << 8u64
        };
        let forward: u64 = if pieces & basic == 0 {
            let dbl: u64 = if parity == Parity::WHITE {
                basic >> 8u64
            } else {
                basic << 8u64
            };
            if (index / 8 == 1 || index / 8 == 6) && dbl != 0 && pieces & dbl == 0 {
                basic | dbl
            } else {
                basic
            }
        } else {
            0u64
        };
        let ydir: int = if basic > pos {
            1
        } else {
            -1
        };
        let x = index % 8;
        let y = index / 8;
        let d1 = pawn_diagonal(x + 1, y + ydir, enemy, pieces, ignore_diag, enpassant);
        let d2 = pawn_diagonal(x - 1, y + ydir, enemy, pieces, ignore_diag, enpassant);
        (forward | d1.0 | d2.0, d1.1 | d2.1)
    }
}

/// What a pawn's diagonal square `(x, y)` adds: (move, defence).
pub open spec fn pawn_diagonal(
    x: int,
    y: int,
    enemy: u64,
    pieces: u64,
    ignore_diag: bool,
    enpassant: u64,
) -> (u64, u64) {
    if !on_board(x, y) {
        (0u64, 0u64)
    } else {
        let d = point_mask(x, y);
        let defend: u64 = if pieces & d != 0 && enemy & d == 0 {
            d
        } else {
            0u64
        };
        let take: u64 = if enemy & d != 0 || ignore_diag {
            d
        } else if pieces & enpassant == 0 && enpassant & d != 0 {
            d
        } else {
            0u64
        };
        (take, defend)
    }
}

/// The moves and defended squares along one ray from square `index`.
fn ray(index: usize, dx: i32, dy: i32, enemy: u64, pieces: u64) -> (r: (u64, u64))
    requires
        index < 64,
        -1 <= dx <= 1,
        -1 <= dy <= 1,
    ensures
        r.0 == ray_move_mask(index as int, dx as int, dy as int, enemy, pieces),
        r.1 == ray_defense_mask(index as int, dx as int, dy as int, enemy, pieces),
{
    let x: i32 = (index % 8) as i32;
    let y: i32 = (index / 8) as i32;
    let ghost xi = x as int;
    let ghost yi = y as int;
    let mut mv: u64 = 0;
    let mut df: u64 = 0;
    let mut hit = false;
    let mut i: i32 = 1;
    while i <= 8
        invariant
            index < 64,
            -1 <= dx <= 1,
            -1 <= dy <= 1,
            xi == index as int % 8,
            yi == index as int / 8,
            x == xi,
            y == yi,
            1 <= i <= 9,
            hit == !ray_open(xi, yi, dx as int, dy as int, i as int, pieces),
            forall|s: int|
                0 <= s < 64 ==> #[trigger] bit(mv, s) == ray_move_upto(
                    xi,
                    yi,
                    dx as int,
                    dy as int,
                    enemy,
                    pieces,
                    s,
                    i as int,
                ),
            forall|s: int|
                0 <= s < 64 ==> #[trigger] bit(df, s) == ray_defense_upto(
                    xi,
                    yi,
                    dx as int,
                    dy as int,
                    enemy,
                    pieces,
                    s,
                    i as int,
                ),
        decreases 9 - i,
    {
        let ghost mv0 = mv;
        let ghost df0 = df;
        let ghost sq = ray_square(xi, yi, dx as int, dy as int, i as int);
        if !hit {
            assert(-8 <= i * dx <= 8 && -8 <= i * dy <= 8) by (nonlinear_arith)
                requires
                    -1 <= dx <= 1,
                    -1 <= dy <= 1,
                    1 <= i <= 8,
            ;
            let px = x + i * dx;
            let py = y + i * dy;
            if px >= 0 && px < 8 && py >= 0 && py < 8 {
                let m: u64 = 1u64 << ((py * 8 + px) as u64);
                proof {
                    assert(m == single(sq));
                    lemma_and_single(pieces, sq);
                    lemma_and_single(enemy, sq);
                }
                if pieces & m != 0 {
                    if enemy & m != 0 {
                        mv = mv | m;
                    } else {
                        df = df | m;
                    }
                    hit = true;
                } else {
                    mv = mv | m;
                }
            } else {
                hit = true;
            }
        }
        proof {
            let ii = i as int;
            assert(ray_open(xi, yi, dx as int, dy as int, ii + 1, pieces) == (ray_open(
                xi,
                yi,
                dx as int,
                dy as int,
                ii,
                pieces,
            ) && ray_on_board(xi, yi, dx as int, dy as int, ii) && !bit(pieces, sq)));
            assert forall|s: int| 0 <= s < 64 implies #[trigger] bit(mv, s) == ray_move_upto(
                xi,
                yi,
                dx as int,
                dy as int,
                enemy,
                pieces,
                s,
                ii + 1,
            ) by {
                if ray_move_upto(xi, yi, dx as int, dy as int, enemy, pieces, s, ii + 1) {
                    let d = choose|d: int|
                        1 <= d < ii + 1 && #[trigger] ray_square(xi, yi, dx as int, dy as int, d)
                            == s && ray_step_move(xi, yi, dx as int, dy as int, d, enemy, pieces);
                    if d < ii {
                        assert(ray_move_upto(xi, yi, dx as int, dy as int, enemy, pieces, s, ii));
                    }
                }
                if s == sq && ray_step_move(xi, yi, dx as int, dy as int, ii, enemy, pieces) {
                    assert(ray_square(xi, yi, dx as int, dy as int, ii) == s);
                }
                if ray_move_upto(xi, yi, dx as int, dy as int, enemy, pieces, s, ii) {
                    let d = choose|d: int|
                        1 <= d < ii && #[trigger] ray_square(xi, yi, dx as int, dy as int, d) == s
                            && ray_step_move(xi, yi, dx as int, dy as int, d, enemy, pieces);
                    assert(ray_square(xi, yi, dx as int, dy as int, d) == s);
                }
            }
            assert forall|s: int| 0 <= s < 64 implies #[trigger] bit(df, s) == ray_defense_upto(
                xi,
                yi,
                dx as int,
                dy as int,
                enemy,
                pieces,
                s,
                ii + 1,
            ) by {
                if ray_defense_upto(xi, yi, dx as int, dy as int, enemy, pieces, s, ii + 1) {
                    let d = choose|d: int|
                        1 <= d < ii + 1 && #[trigger] ray_square(xi, yi, dx as int, dy as int, d)
                            == s && ray_step_defense(xi, yi, dx as int, dy as int, d, enemy, pieces);
                    if d < ii {
                        assert(ray_defense_upto(xi, yi, dx as int, dy as int, enemy, pieces, s, ii));
                    }
                }
                if s == sq && ray_step_defense(xi, yi, dx as int, dy as int, ii, enemy, pieces) {
                    assert(ray_square(xi, yi, dx as int, dy as int, ii) == s);
                }
                if ray_defense_upto(xi, yi, dx as int, dy as int, enemy, pieces, s, ii) {
                    let d = choose|d: int|
                        1 <= d < ii && #[trigger] ray_square(xi, yi, dx as int, dy as int, d) == s
                            && ray_step_defense(xi, yi, dx as int, dy as int, d, enemy, pieces);
                    assert(ray_square(xi, yi, dx as int, dy as int, d) == s);
                }
            }
        }
        i = i + 1;
    }
    proof {
        lemma_is_mask_of(
            mv,
            |s: int| ray_move_upto(index as int % 8, index as int / 8, dx as int, dy as int, enemy, pieces, s, 9),
        );
        lemma_is_mask_of(
            df,
            |s: int| ray_defense_upto(index as int % 8, index as int / 8, dx as int, dy as int, enemy, pieces, s, 9),
        );
    }
    (mv, df)
}

/// The moves and defended squares of a bishop on `bishop_index`.
pub fn bishop_move(bishop_index: usize, enemy_mask: &Mask, piece_mask: &Mask) -> (r: (Mask, Mask))
    requires
        bishop_index < 64,
    ensures
        (r.0.raw, r.1.raw) == bishop_masks(bishop_index as int, enemy_mask.raw, piece_mask.raw),
{
    let a = ray(bishop_index, -1, -1, enemy_mask.raw, piece_mask.raw);
    let b = ray(bishop_index, -1, 1, enemy_mask.raw, piece_mask.raw);
    let c = ray(bishop_index, 1, 1, enemy_mask.raw, piece_mask.raw);
    let d = ray(bishop_index, 1, -1, enemy_mask.raw, piece_mask.raw);
    (Mask { raw: a.0 | b.0 | c.0 | d.0 }, Mask { raw: a.1 | b.1 | c.1 | d.1 })
}

/// The moves and defended squares of a rook on `rook_index`.
pub fn rook_move(rook_index: usize, enemy_mask: &Mask, piece_mask: &Mask) -> (r: (Mask, Mask))
    requires
        rook_index < 64,
    ensures
        (r.0.raw, r.1.raw) == rook_masks(rook_index as int, enemy_mask.raw, piece_mask.raw),
{
    let a = ray(rook_index, 0, 1, enemy_mask.raw, piece_mask.raw);
    let b = ray(rook_index, 0, -1, enemy_mask.raw, piece_mask.raw);
    let c = ray(rook_index, 1, 0, enemy_mask.raw, piece_mask.raw);
    let d = ray(rook_index, -1, 0, enemy_mask.raw, piece_mask.raw);
    (Mask { raw: a.0 | b.0 | c.0 | d.0 }, Mask { raw: a.1 | b.1 | c.1 | d.1 })
}

/// The moves and defended squares of a queen on `queen_index`.
pub fn queen_move(queen_index: usize, enemy_mask: &Mask, piece_mask: &Mask) -> (r: (Mask, Mask))
    requires
        queen_index < 64,
    ensures
        (r.0.raw, r.1.raw) == queen_masks(queen_index as int, enemy_mask.raw, piece_mask.raw),
{
    let r = rook_move(queen_index, enemy_mask, piece_mask);
    let b = bishop_move(queen_index, enemy_mask, piece_mask);
    (r.0.or(b.0), r.1.or(b.1))
}

/// The mask of the square `(x, y)`, empty off the board.
fn jump(x: i32, y: i32, dx: i32, dy: i32) -> (r: u64)
    requires
        0 <= x < 8,
        0 <= y < 8,
        -2 <= dx <= 2,
        -2 <= dy <= 2,
    ensures
        r == point_mask(x + dx, y + dy),
{
    let pv = Point { x: x + dx, y: y + dy };
    if pv.valid() {
        Mask::from_point(pv).raw
    } else {
        0
    }
}

/// The moves and defended squares of a knight on `knight_index`.
pub fn knight_move(knight_index: usize, enemy_mask: &Mask, piece_mask: &Mask) -> (r: (Mask, Mask))
    requires
        knight_index < 64,
    ensures
        (r.0.raw, r.1.raw) == knight_masks(knight_index as int, enemy_mask.raw, piece_mask.raw),
{
    let pos = Point::from_index(knight_index);
    let x = pos.x;
    let y = pos.y;
    let t: u64 = jump(x, y, -2, -1) | jump(x, y, -2, 1) | jump(x, y, -1, -2) | jump(x, y, -1, 2)
        | jump(x, y, 1, -2) | jump(x, y, 1, 2) | jump(x, y, 2, -1) | jump(x, y, 2, 1);
    let move_mask = Mask { raw: t };
    (
        move_mask.and(enemy_mask.get_not().and(*piece_mask).get_not()),
        move_mask.and(*piece_mask).and(enemy_mask.get_not()),
    )
}

/// The moves and defended squares of a king on `king_index`.
pub fn king_move(king_index: usize, enemy_mask: &Mask, piece_mask: &Mask) -> (r: (Mask, Mask))
    requires
        king_index < 64,
    ensures
        (r.0.raw, r.1.raw) == king_masks(king_index as int, enemy_mask.raw, piece_mask.raw),
{
    let ghost ki = king_index as int;
    let ghost enemy = enemy_mask.raw;
    let ghost pieces = piece_mask.raw;
    let mut move_mask: u64 = 0;
    let mut defense_mask: u64 = 0;
    let mut maxx: i32 = 2;
    let mut minx: i32 = -1;
    let mut maxy: i32 = 2;
    let mut miny: i32 = -1;
    let kim8 = king_index % 8;
    let kid8 = king_index / 8;
    if kim8 == 7 {
        maxx = maxx - 1;
    }
    if kim8 == 0 {
        minx = minx + 1;
    }
    if kid8 == 7 {
        maxy = maxy - 1;
    }
    if kid8 == 0 {
        miny = miny + 1;
    }
    let mut y: i32 = miny;
    while y < maxy
        invariant
            king_index < 64,
            ki == king_index,
            enemy == enemy_mask.raw,
            pieces == piece_mask.raw,
            kim8 == ki % 8,
            kid8 == ki / 8,
            minx == (if kim8 == 0 { 0i32 } else { -1i32 }),
            maxx == (if kim8 == 7 { 1i32 } else { 2i32 }),
            miny == (if kid8 == 0 { 0i32 } else { -1i32 }),
            maxy == (if kid8 == 7 { 1i32 } else { 2i32 }),
            miny <= y <= maxy,
            forall|s: int|
                0 <= s < 64 ==> #[trigger] bit(move_mask, s) == (king_adjacent(ki, s) && (!bit(
                    pieces,
                    s,
                ) || bit(enemy, s)) && s / 8 - ki / 8 < y),
            forall|s: int|
                0 <= s < 64 ==> #[trigger] bit(defense_mask, s) == (king_adjacent(ki, s) && bit(
                    pieces,
                    s,
                ) && !bit(enemy, s) && s / 8 - ki / 8 < y),
        decreases maxy - y,
    {
        let mut x: i32 = minx;
        while x < maxx
            invariant
                king_index < 64,
                ki == king_index,
                enemy == enemy_mask.raw,
                pieces == piece_mask.raw,
                kim8 == ki % 8,
                kid8 == ki / 8,
                minx == (if kim8 == 0 { 0i32 } else { -1i32 }),
                maxx == (if kim8 == 7 { 1i32 } else { 2i32 }),
                miny == (if kid8 == 0 { 0i32 } else { -1i32 }),
                maxy == (if kid8 == 7 { 1i32 } else { 2i32 }),
                miny <= y < maxy,
                minx <= x <= maxx,
                forall|s: int|
                    0 <= s < 64 ==> #[trigger] bit(move_mask, s) == (king_adjacent(ki, s) && (!bit(
                        pieces,
                        s,
                    ) || bit(enemy, s)) && (s / 8 - ki / 8 < y || (s / 8 - ki / 8 == y && s % 8
                        - ki % 8 < x))),
                forall|s: int|
                    0 <= s < 64 ==> #[trigger] bit(defense_mask, s) == (king_adjacent(ki, s) && bit(
                        pieces,
                        s,
                    ) && !bit(enemy, s) && (s / 8 - ki / 8 < y || (s / 8 - ki / 8 == y && s % 8
                        - ki % 8 < x))),
            decreases maxx - x,
        {
            if !(x == 0 && y == 0) {
                let t: usize = (king_index as i32 + y * 8 + x) as usize;
                let ghost tt = t as int;
                assert(tt % 8 == ki % 8 + x && tt / 8 == ki / 8 + y);
                let thispos = Mask::from_index(t);
                proof {
                    lemma_and_single(pieces, tt);
                    lemma_and_single(enemy, tt);
                }
                if (piece_mask.and(thispos)).any() {
                    if (enemy_mask.and(thispos)).any() {
                        move_mask = move_mask | thispos.raw;
                    } else {
                        defense_mask = defense_mask | thispos.raw;
                    }
                } else {
                    move_mask = move_mask | thispos.raw;
                }
                proof {
                    assert forall|s: int| 0 <= s < 64 implies #[trigger] bit(single(tt), s) == (s
                        == tt) by {}
                }
            }
            x = x + 1;
        }
        y = y + 1;
    }
    proof {
        lemma_is_mask_of(
            move_mask,
            |s: int| king_adjacent(ki, s) && (!bit(pieces, s) || bit(enemy, s)),
        );
        lemma_is_mask_of(
            defense_mask,
            |s: int| king_adjacent(ki, s) && bit(pieces, s) && !bit(enemy, s),
        );
    }
    (Mask { raw: move_mask }, Mask { raw: defense_mask })
}

/// What a pawn's diagonal square adds: (move, defence).
fn pawn_diag(
    d: Point,
    enemy_mask: &Mask,
    piece_mask: &Mask,
    ignore_diagonal_enemy_requirement: bool,
    enpassant: &Mask,
) -> (r: (u64, u64))
    ensures
        r == pawn_diagonal(
            d.x as int,
            d.y as int,
            enemy_mask.raw,
            piece_mask.raw,
            ignore_diagonal_enemy_requirement,
            enpassant.raw,
        ),
{
    let mut mv: u64 = 0;
    let mut df: u64 = 0;
    if d.valid() {
        let dm = Mask::from_point(d);
        if piece_mask.and(dm).any() && enemy_mask.and(dm).none() {
            df = dm.raw;
        }
        if enemy_mask.and(dm).any() || ignore_diagonal_enemy_requirement {
            mv = dm.raw;
        } else if piece_mask.and(*enpassant).none() && enpassant.and(dm).any() {
            mv = dm.raw;
        }
    }
    (mv, df)
}

/// The moves and defended squares of a pawn of side `parity` on `pawn_index`.
pub fn pawn_move(
    pawn_index: usize,
    enemy_mask: &Mask,
    piece_mask: &Mask,
    parity: Parity,
    ignore_diagonal_enemy_requirement: bool,
    enpassant: &Mask,
) -> (r: (Mask, Mask))
    requires
        pawn_index < 64,
    ensures
        (r.0.raw, r.1.raw) == pawn_masks(
            pawn_index as int,
            enemy_mask.raw,
            piece_mask.raw,
            parity,
            ignore_diagonal_enemy_requirement,
            enpassant.raw,
        ),
{
    if pawn_index < 8 || pawn_index > 55 {
        return (Mask { raw: 0 }, Mask { raw: 0 });
    }
    let pos_mask = Mask::from_index(pawn_index);
    let basic = Mask {
        raw: if parity == Parity::WHITE {
            pos_mask.raw >> 8
        } else {
            pos_mask.raw << 8
        },
    };
    let mut forward: u64 = 0;
    if piece_mask.and(basic).none() {
        let dbl = Mask {
            raw: if parity == Parity::WHITE {
                basic.raw >> 8
            } else {
                basic.raw << 8
            },
        };
        if (pawn_index / 8 == 1 || pawn_index / 8 == 6) && dbl.any() && piece_mask.and(dbl).none() {
            forward = basic.raw | dbl.raw;
        } else {
            forward = basic.raw;
        }
    }
    let pos_pos = Point::from_index(pawn_index);
    let ydir: i32 = if basic.raw > pos_mask.raw {
        1
    } else {
        -1
    };
    let d1 = pawn_diag(
        Point { x: pos_pos.x + 1, y: pos_pos.y + ydir },
        enemy_mask,
        piece_mask,
        ignore_diagonal_enemy_requirement,
        enpassant,
    );
    let d2 = pawn_diag(
        Point { x: pos_pos.x - 1, y: pos_pos.y + ydir },
        enemy_mask,
        piece_mask,
        ignore_diagonal_enemy_requirement,
        enpassant,
    );
    (Mask { raw: forward | d1.0 | d2.0 }, Mask { raw: d1.1 | d2.1 })
}

} // verus!
