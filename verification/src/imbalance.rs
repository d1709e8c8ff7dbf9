use vstd::prelude::*;
use crate::chessbyte::{ChessByte, byte_is_white, byte_is_black, byte_is_piece, byte_piece, byte_is_parity};
use crate::material::sum_squares;
use crate::mobility::{grid_sum, column_sum};
use crate::piece::{Parity, PieceByte};

verus! {

/// Imbalance weights of a piece (row, by kind order) against the other pieces (column: kind
/// order plus one; column 0 counts a pair of bishops).
pub const PRIMARY_IMBALANCE_TABLE: [[i32; 6]; 5] = [
    [40, 38, 0, 0, 0, 0],
    [32, 255, -62, 0, 0, 0],
    [0, 104, 4, 0, 0, 0],
    [-26, -2, 47, 105, -208, 0],
    [-189, 24, 117, 133, -134, -6]
];
/// The second imbalance table, used for kings and for a black pair of bishops.
pub const SECONDARY_IMBALANCE_TABLE: [[i32; 6]; 5] = [
    [36, 0, 0, 0, 0, 0],
    [9, 63, 0, 0, 0, 0],
    [59, 65, 42, 0, 0, 0],
    [46, 39, 24, -24, 0, 0],
    [97, 100, -42, 137, 268, 0]
];

/// The order of the kinds of piece: none -1, pawn 0, knight 1, bishop 2, rook 3, queen 4,
/// king 5.
pub open spec fn kind_order(p: PieceByte) -> int {
    match p {
        PieceByte::NONE => -1,
        PieceByte::PAWN => 0,
        PieceByte::KNIGHT => 1,
        PieceByte::BISHOP => 2,
        PieceByte::ROOK => 3,
        PieceByte::QUEEN => 4,
        PieceByte::KING => 5,
    }
}

/// What the piece of byte `q` adds to the imbalance of the white piece of byte `p`: nothing for
/// an empty square, a king, a piece of the same kind, or a piece whose order plus one (modulo
/// 6) passes the order plus one of `p`; else the table entry of the two kinds.
pub open spec fn pair_term(p: u8, q: u8) -> int {
    let op = kind_order(byte_piece(p));
    let oq = kind_order(byte_piece(q));
    if !byte_is_piece(q) || q & 7u8 == 5 || byte_piece(p) == byte_piece(q) {
        0
    } else if (oq + 1) % 6 > op + 1 {
        0
    } else if oq > 4 {
        SECONDARY_IMBALANCE_TABLE@[op]@[oq + 1] as int
    } else {
        PRIMARY_IMBALANCE_TABLE@[op]@[oq + 1] as int
    }
}

/// Whether byte `q` is a bishop of the given colour counted for the white piece of byte `p`.
pub open spec fn counted_bishop(p: u8, q: u8, white: bool) -> bool {
    &&& byte_is_piece(q)
    &&& q & 7u8 != 5
    &&& byte_piece(p) != byte_piece(q)
    &&& q & 7u8 == 3
    &&& if white { byte_is_white(q) } else { byte_is_black(q) }
}

/// The imbalance of the piece on square `s`: for a white piece other than a king, its terms
/// against every square (column by column), plus the pair bonus of each colour that has more
/// than one counted bishop.
pub open spec fn square_imbalance(b: Seq<u8>, s: int) -> int {
    let p = b[s];
    let op = kind_order(byte_piece(p));
    if byte_is_piece(p) && byte_is_white(p) && !(p & 7u8 == 5) {
        grid_sum(|t: int| pair_term(p, b[t]), 8) + (if grid_sum(
            |t: int| if counted_bishop(p, b[t], false) { 1int } else { 0int },
            8,
        ) > 1 {
            SECONDARY_IMBALANCE_TABLE@[op]@[0] as int
        } else {
            0
        }) + (if grid_sum(|t: int| if counted_bishop(p, b[t], true) { 1int } else { 0int }, 8) > 1 {
            PRIMARY_IMBALANCE_TABLE@[op]@[0] as int
        } else {
            0
        })
    } else {
        0
    }
}

/// The boards on which `piece_imbalance` reads only entries of its tables: a white byte of
/// kind bits 7 (no kind of piece) sees at most one counted bishop of each colour.
pub open spec fn imbalance_defined(b: Seq<u8>) -> bool {
    forall|s: int|
        0 <= s < 64 && byte_is_white(#[trigger] b[s]) && b[s] & 7u8 == 7 ==> grid_sum(
            |t: int| if counted_bishop(b[s], b[t], false) { 1int } else { 0int },
            8,
        ) <= 1 && grid_sum(|t: int| if counted_bishop(b[s], b[t], true) { 1int } else { 0int }, 8) <= 1
}

/// White's piece imbalance.
pub open spec fn imbalance_of(b: Seq<u8>) -> int {
    sum_squares(|s: int| square_imbalance(b, s), 64)
}

/// The number of white pieces of a kind.
pub open spec fn white_count(b: Seq<u8>, piece: PieceByte) -> int {
    sum_squares(
        |i: int| if byte_piece(b[i]) == piece && byte_is_parity(b[i], Parity::WHITE) { 1int } else { 0int },
        64,
    )
}

fn get_piece_value_for_ordering(piece: PieceByte) -> (r: i32)
    ensures
        r == kind_order(piece),
{
    match piece {
        PieceByte::NONE => -1,
        PieceByte::PAWN => 0,
        PieceByte::KNIGHT => 1,
        PieceByte::BISHOP => 2,
        PieceByte::ROOK => 3,
        PieceByte::QUEEN => 4,
        PieceByte::KING => 5,
    }
}

fn piece_imbalance_table(piece1: PieceByte, piece2: PieceByte, table: &[[i32; 6]; 5]) -> (r: i32)
    requires
        0 <= kind_order(piece1) < 5,
        0 <= kind_order(piece2) + 1 < 6,
    ensures
        r == table@[kind_order(piece1)]@[kind_order(piece2) + 1],
{
    let arrayi = get_piece_value_for_ordering(piece1);
    let array = &table[arrayi as usize];
    let array2_index = get_piece_value_for_ordering(piece2) + 1;
    array[array2_index as usize]
}

/// The piece-imbalance score of white: each white piece other than a king against every other
/// piece of another kind, with pair bonuses for bishops.
pub fn piece_imbalance(board: &[u8; 64]) -> (r: i32)
    requires
        imbalance_defined(board@),
    ensures
        r == imbalance_of(board@),
        -(64 * 20000) <= r <= 64 * 20000,
{
    let ghost g = |s: int| square_imbalance(board@, s);
    let mut sum: i32 = 0;
    let mut s: usize = 0;
    while s < 64
        invariant
            s <= 64,
            imbalance_defined(board@),
            g == (|s: int| square_imbalance(board@, s)),
            sum == sum_squares(g, s as int),
            -(s * 20000) <= sum <= s * 20000,
        decreases 64 - s,
    {
        let p = board[s];
        if p.is_piece() && p.is_white() && !p.is_king() {
            let ghost f = |t: int| pair_term(p, board@[t]);
            let ghost fb = |t: int| if counted_bishop(p, board@[t], false) { 1int } else { 0int };
            let ghost fw = |t: int| if counted_bishop(p, board@[t], true) { 1int } else { 0int };
            let op = get_piece_value_for_ordering(p.get_piece());
            let mut term: i32 = 0;
            let mut bishops: (i32, i32) = (0i32, 0i32);
            let mut x: usize = 0;
            while x < 8
                invariant
                    x <= 8,
                    byte_is_piece(p) && byte_is_white(p) && !(p & 7u8 == 5),
                    op == kind_order(byte_piece(p)),
                    f == (|t: int| pair_term(p, board@[t])),
                    fb == (|t: int| if counted_bishop(p, board@[t], false) { 1int } else { 0int }),
                    fw == (|t: int| if counted_bishop(p, board@[t], true) { 1int } else { 0int }),
                    term == grid_sum(f, x as int),
                    bishops.0 == grid_sum(fb, x as int),
                    bishops.1 == grid_sum(fw, x as int),
                    -(x * 8 * 300) <= term <= x * 8 * 300,
                    0 <= bishops.0 <= x * 8,
                    0 <= bishops.1 <= x * 8,
                decreases 8 - x,
            {
                let mut y: usize = 0;
                let ghost t0 = term;
                let ghost b0 = bishops.0;
                let ghost w0 = bishops.1;
                while y < 8
                    invariant
                        y <= 8,
                        x < 8,
                        byte_is_piece(p) && byte_is_white(p) && !(p & 7u8 == 5),
                        op == kind_order(byte_piece(p)),
                        f == (|t: int| pair_term(p, board@[t])),
                        fb == (|t: int| if counted_bishop(p, board@[t], false) { 1int } else { 0int }),
                        fw == (|t: int| if counted_bishop(p, board@[t], true) { 1int } else { 0int }),
                        t0 == grid_sum(f, x as int),
                        b0 == grid_sum(fb, x as int),
                        w0 == grid_sum(fw, x as int),
                        -(x * 8 * 300) <= t0 <= x * 8 * 300,
                        0 <= b0 <= x * 8,
                        0 <= w0 <= x * 8,
                        term == t0 + column_sum(f, x as int, y as int),
                        bishops.0 == b0 + column_sum(fb, x as int, y as int),
                        bishops.1 == w0 + column_sum(fw, x as int, y as int),
                        -(y * 300) <= term - t0 <= y * 300,
                        0 <= bishops.0 - b0 <= y,
                        0 <= bishops.1 - w0 <= y,
                    decreases 8 - y,
                {
                    let i = board[y * 8 + x];
                    if !i.is_piece() || i.is_king() || p.get_piece() == i.get_piece() {
                        y = y + 1;
                        continue;
                    }
                    if i.is_bishop() {
                        if i.is_black() {
                            bishops.0 = bishops.0 + 1;
                        }
                        if i.is_white() {
                            bishops.1 = bishops.1 + 1;
                        }
                    }
                    let oi = get_piece_value_for_ordering(i.get_piece());
                    if (oi + 1) % 6 > (op + 1) {
                        y = y + 1;
                        continue;
                    }
                    if oi > 4 {
                        term = term + piece_imbalance_table(p.get_piece(), i.get_piece(), &SECONDARY_IMBALANCE_TABLE);
                    } else {
                        term = term + piece_imbalance_table(p.get_piece(), i.get_piece(), &PRIMARY_IMBALANCE_TABLE);
                    }
                    y = y + 1;
                }
                x = x + 1;
            }
            proof {
                assert(p == board@[s as int]);
                if op == -1 {
                    assert(p & 7u8 == 7) by {
                        assert(p & 7u8 <= 7) by (bit_vector);
                    }
                }
            }
            if bishops.0 > 1 {
                term = term + SECONDARY_IMBALANCE_TABLE[op as usize][0];
            }
            if bishops.1 > 1 {
                term = term + PRIMARY_IMBALANCE_TABLE[op as usize][0];
            }
            sum = sum + term;
        }
        s = s + 1;
    }
    sum
}

/// The number of white pieces of a kind.
fn count_pieces(board: &[u8; 64], piece: PieceByte) -> (r: i32)
    ensures
        r == white_count(board@, piece),
        0 <= r <= 64,
{
    let ghost f = |i: int| if byte_piece(board@[i]) == piece && byte_is_parity(board@[i], Parity::WHITE) { 1int } else { 0int };
    let mut count: i32 = 0;
    let mut i: usize = 0;
    while i < 64
        invariant
            i <= 64,
            f == (|i: int| if byte_piece(board@[i]) == piece && byte_is_parity(board@[i], Parity::WHITE) { 1int } else { 0int }),
            count == sum_squares(f, i as int),
            0 <= count <= i,
        decreases 64 - i,
    {
        if board[i].get_piece() == piece && board[i].is_parity(Parity::WHITE) {
            count = count + 1;
        }
        i = i + 1;
    }
    count
}

/// The bishop-pair bonus: 1438 when white has two bishops or more.
pub fn bishop_pair(board: &[u8; 64]) -> (r: i32)
    ensures
        r == (if white_count(board@, PieceByte::BISHOP) < 2 { 0int } else { 1438int }),
{
    if count_pieces(board, PieceByte::BISHOP) < 2 {
        0
    } else {
        1438
    }
}

} // verus!
