use vstd::prelude::*;
use crate::chessbyte::{ChessByte, byte_is_white, byte_piece, byte_is_parity};
use crate::mask::flip_square;
use crate::piece::{Parity, PieceByte};

verus! {

/// Endgame square weights of white pawns, by row from white's side and column.
pub const EG_PAWN_WEIGHTS: [[i32; 8]; 8] = [[0, 0, 0, 0, 0, 0, 0, 0],[-10, -6, 10, 0, 14, 7, -5, -19],[-10, -10, -10, 4, 4, 3, -6, -4],[6, -2, -8, -4, -13, -12, -10, -9],[10, 5, 4, -5, -5, -5, 14, 9], [28, 20, 21, 28, 30, 7, 6, 13],[0, -11, 12, 21, 25, 19, 4, 7],[0, 0, 0, 0, 0, 0, 0, 0]];
/// Endgame square weights of white knights, by row and distance-to-edge column.
pub const EG_KNIGHT_WEIGHTS: [[i32; 4]; 8] = [[-96, -65, -49, -21],[-67, -54, -18, 8],[-40, -27, -8, 29],[-35, -2, 13, 28],[-45, -16, 9, 39],[-51, -44, -16, 17],[-69, -50, -51, 12],[-100, -88, -56, -17]];
/// Endgame square weights of white bishops.
pub const EG_BISHOP_WEIGHTS: [[i32; 4]; 8]  = [[-57, -30, -37, -12],[-37, -13, -17, 1],[-16, -1, -2, 10],[-20, -6, 0, 17],[-17, -1, -14, 15],[-30, 6, 4, 6],[-31, -20, -1, 1],[-46, -42, -37, -24]];
/// Endgame square weights of white rooks.
pub const EG_ROOK_WEIGHTS: [[i32; 4]; 8]  = [[-9, -13, -10, -9],[-12, -9, -1, -2],[6, -8, -2, -6],[-6, 1, -9, 7],[-5, 8, 7, -6],[6, 1, -7, 10],[4, 5, 20, -5],[18, 0, 19, 13]];
/// Endgame square weights of white queens.
pub const EG_QUEEN_WEIGHTS: [[i32; 4]; 8]  = [[-69, -57, -47, -26],[-55, -31, -22, -4],[-39, -18, -9, 3],[-23, -3, 13, 24],[-29, -6, 9, 21],[-38, -18, -12, 1],[-50, -27, -24, -8],[-75, -52, -43, -36]];
/// Endgame square weights of the white king.
pub const EG_KING_WEIGHTS: [[i32; 4]; 8]  = [[1, 45, 85, 76],[53, 100, 133, 135],[88, 130, 169, 175],[103, 156, 172, 172],[96, 166, 199, 199],[92, 172, 184, 191],[47, 121, 116, 131],[11, 59, 73, 78]];

/// Midgame square weights of white pawns.
pub const MG_PAWN_WEIGHTS: [[i32; 8]; 8] = [[0, 0, 0, 0, 0, 0, 0, 0],[3, 3, 10, 19, 16, 19, 7, -5],[-9, -15, 11, 15, 32, 22, 5, -22],[-4, -23, 6, 20, 40, 17, 4, -8],[13, 0, -13, 1, 11, -2, -13, 5], [5, -12, -7, 22, -8, -5, -15, -8],[-7, 7, -3, -13, 5, -16, 10, -8],[0, 0, 0, 0, 0, 0, 0, 0]];
/// Midgame square weights of white knights.
pub const MG_KNIGHT_WEIGHTS: [[i32; 4]; 8] = [ [-175, -92, -74, -73],[-77, -41, -27, -15],[-61, -17, 6, 12],[-35, 8, 40, 49],[-34, 13, 44, 51],[-9, 22, 58, 53],[-67, -27, 4, 37],[-201, -83, -56, -26], ];
/// Midgame square weights of white bishops.
pub const MG_BISHOP_WEIGHTS: [[i32; 4]; 8] = [ [-53, -5, -8, -23],[-15, 8, 19, 4],[-7, 21, -5, 17],[-5, 11, 25, 39],[-12, 29, 22, 31],[-16, 6, 1, 11],[-17, -14, 5, 0],[-48, 1, -14, -23], ];
/// Midgame square weights of white rooks.
pub const MG_ROOK_WEIGHTS: [[i32; 4]; 8] = [ [-31, -20, -14, -5],[-21, -13, -8, 6],[-25, -11, -1, 3],[-13, -5, -4, -6],[-27, -15, -4, 3],[-22, -2, 6, 12],[-2, 12, 16, 18],[-17, -19, -1, 9], ];
/// Midgame square weights of white queens.
pub const MG_QUEEN_WEIGHTS: [[i32; 4]; 8] = [ [3, -5, -5, 4],[-3, 5, 8, 12],[-3, 6, 13, 7],[4, 5, 9, 8],[0, 14, 12, 5],[-4, 10, 6, 8],[-5, 6, 10, 8],[-2, -2, 1, -2] ];
/// Midgame square weights of the white king.
pub const MG_KING_WEIGHTS: [[i32; 4]; 8] = [ [271, 327, 271, 198],[278, 303, 234, 179],[195, 258, 169, 120],[164, 190, 138, 98],[154, 179, 105, 70],[123, 145, 81, 31],[88, 120, 65, 33],[59, 89, 45, -1] ];

/// Midgame values of pawn, knight, bishop, rook and queen.
pub const MIDGAME_PRICE: [i32; 5] = [124, 781, 825, 1276, 2538];
/// Endgame values of pawn, knight, bishop, rook and queen.
pub const ENDGAME_PRICE: [i32; 5] = [206, 854, 915, 1380, 2682];

/// The sum of `f` over squares `0..n`.
pub open spec fn sum_squares(f: spec_fn(int) -> int, n: int) -> int
    decreases n,
{
    if n <= 0 {
        0
    } else {
        sum_squares(f, n - 1) + f(n - 1)
    }
}

/// The value of a piece byte from a price table; pawns count only when asked, kings and empty
/// squares nothing.
pub open spec fn table_price(b: u8, price: Seq<i32>, include_pawns: bool) -> int {
    match byte_piece(b) {
        PieceByte::PAWN => if include_pawns { price[0] as int } else { 0 },
        PieceByte::KNIGHT => price[1] as int,
        PieceByte::BISHOP => price[2] as int,
        PieceByte::ROOK => price[3] as int,
        PieceByte::QUEEN => price[4] as int,
        _ => 0,
    }
}

/// The material of white: the table value of each byte with the white bit.
pub open spec fn material_of(b: Seq<u8>, price: Seq<i32>, include_pawns: bool) -> int {
    sum_squares(|i: int| if byte_is_white(b[i]) { table_price(b[i], price, include_pawns) } else { 0 }, 64)
}

/// The midgame value of a piece byte.
pub open spec fn piece_price(b: u8) -> int {
    table_price(b, MIDGAME_PRICE@, true)
}

/// The midgame weight of piece byte `b` on square `s`, from the table of its kind: row
/// `7 - s / 8`, and the column's distance to the nearer edge (the column itself for pawns).
pub open spec fn mg_square_weight(b: u8, s: int) -> int {
    let y = s / 8;
    let x = s % 8;
    let c = if x < 7 - x { x } else { 7 - x };
    match byte_piece(b) {
        PieceByte::KING => MG_KING_WEIGHTS@[7 - y]@[c] as int,
        PieceByte::QUEEN => MG_QUEEN_WEIGHTS@[7 - y]@[c] as int,
        PieceByte::KNIGHT => MG_KNIGHT_WEIGHTS@[7 - y]@[c] as int,
        PieceByte::BISHOP => MG_BISHOP_WEIGHTS@[7 - y]@[c] as int,
        PieceByte::ROOK => MG_ROOK_WEIGHTS@[7 - y]@[c] as int,
        PieceByte::PAWN => MG_PAWN_WEIGHTS@[7 - y]@[x] as int,
        PieceByte::NONE => 0,
    }
}

/// The endgame weight of piece byte `b` on square `s`.
pub open spec fn eg_square_weight(b: u8, s: int) -> int {
    let y = s / 8;
    let x = s % 8;
    let c = if x < 7 - x { x } else { 7 - x };
    match byte_piece(b) {
        PieceByte::KING => EG_KING_WEIGHTS@[7 - y]@[c] as int,
        PieceByte::QUEEN => EG_QUEEN_WEIGHTS@[7 - y]@[c] as int,
        PieceByte::KNIGHT => EG_KNIGHT_WEIGHTS@[7 - y]@[c] as int,
        PieceByte::BISHOP => EG_BISHOP_WEIGHTS@[7 - y]@[c] as int,
        PieceByte::ROOK => EG_ROOK_WEIGHTS@[7 - y]@[c] as int,
        PieceByte::PAWN => EG_PAWN_WEIGHTS@[7 - y]@[x] as int,
        PieceByte::NONE => 0,
    }
}

/// The sum of the midgame weights of the squares of white's pieces.
pub open spec fn mg_position_of(b: Seq<u8>) -> int {
    sum_squares(|s: int| if byte_is_white(b[s]) { mg_square_weight(b[s], s) } else { 0 }, 64)
}

/// The sum of the endgame weights of the squares of white's pieces.
pub open spec fn eg_position_of(b: Seq<u8>) -> int {
    sum_squares(|s: int| if byte_is_white(b[s]) { eg_square_weight(b[s], s) } else { 0 }, 64)
}

/// The midgame weight of a piece on each square, seen from its own side: a black piece's
/// table is turned upside down.
pub open spec fn visual_weight(piece: u8, s: int) -> int {
    if byte_is_parity(piece, Parity::BLACK) {
        mg_square_weight(piece, flip_square(s))
    } else {
        mg_square_weight(piece, s)
    }
}

/// The material of white on a board, valued with `price`.
fn material(board: &[u8; 64], price: &[i32; 5], include_pawns: bool) -> (r: i32)
    requires
        forall|k: int| 0 <= k < 5 ==> 0 <= #[trigger] price@[k] <= 3000,
    ensures
        r == material_of(board@, price@, include_pawns),
        0 <= r <= 64 * 3000,
{
    let ghost f = |i: int| if byte_is_white(board@[i]) { table_price(board@[i], price@, include_pawns) } else { 0 };
    let mut total: i32 = 0;
    let mut i: usize = 0;
    while i < 64
        invariant
            i <= 64,
            forall|k: int| 0 <= k < 5 ==> 0 <= #[trigger] price@[k] <= 3000,
            f == (|i: int| if byte_is_white(board@[i]) { table_price(board@[i], price@, include_pawns) } else { 0 }),
            total == sum_squares(f, i as int),
            0 <= total <= i * 3000,
        decreases 64 - i,
    {
        let p = board[i];
        if p.is_white() {
            let v: i32 = match p.get_piece() {
                PieceByte::PAWN => if include_pawns {
                    price[0]
                } else {
                    0
                },
                PieceByte::KNIGHT => price[1],
                PieceByte::BISHOP => price[2],
                PieceByte::ROOK => price[3],
                PieceByte::QUEEN => price[4],
                _ => 0,
            };
            total = total + v;
        }
        i = i + 1;
    }
    total
}

/// The midgame value of a piece byte: pawn, knight, bishop, rook or queen; nothing for a king
/// or an empty square.
pub fn price_piece(piece: u8) -> (r: i32)
    ensures
        r == piece_price(piece),
{
    match piece.get_piece() {
        PieceByte::PAWN => MIDGAME_PRICE[0],
        PieceByte::KNIGHT => MIDGAME_PRICE[1],
        PieceByte::BISHOP => MIDGAME_PRICE[2],
        PieceByte::ROOK => MIDGAME_PRICE[3],
        PieceByte::QUEEN => MIDGAME_PRICE[4],
        _ => 0,
    }
}

/// The midgame value of the pieces of one side.
pub fn price_parity(board: &[u8; 64], parity: Parity) -> (r: i32)
    ensures
        r == sum_squares(|i: int| if byte_is_parity(board@[i], parity) { piece_price(board@[i]) } else { 0 }, 64),
{
    let ghost f = |i: int| if byte_is_parity(board@[i], parity) { piece_price(board@[i]) } else { 0 };
    let mut sum: i32 = 0;
    let mut i: usize = 0;
    while i < 64
        invariant
            i <= 64,
            f == (|i: int| if byte_is_parity(board@[i], parity) { piece_price(board@[i]) } else { 0 }),
            sum == sum_squares(f, i as int),
            0 <= sum <= i * 3000,
        decreases 64 - i,
    {
        if board[i].is_parity(parity) {
            sum = sum + price_piece(board[i]);
        }
        i = i + 1;
    }
    sum
}

/// White's material at midgame prices.
pub fn midgame_material(board: &[u8; 64]) -> (r: i32)
    ensures
        r == material_of(board@, MIDGAME_PRICE@, true),
        0 <= r <= 64 * 3000,
{
    material(board, &MIDGAME_PRICE, true)
}

/// White's material at endgame prices.
pub fn endgame_material(board: &[u8; 64]) -> (r: i32)
    ensures
        r == material_of(board@, ENDGAME_PRICE@, true),
{
    material(board, &ENDGAME_PRICE, true)
}

/// The midgame value of the piece on a square; a king is worth 30000.
pub fn material_value_of_index(board: &[u8; 64], index: usize) -> (r: i32)
    requires
        index < 64,
    ensures
        r == (if byte_piece(board@[index as int]) == PieceByte::KING { 30000 } else { piece_price(board@[index as int]) }),
{
    match board[index].get_piece() {
        PieceByte::PAWN => MIDGAME_PRICE[0],
        PieceByte::KNIGHT => MIDGAME_PRICE[1],
        PieceByte::BISHOP => MIDGAME_PRICE[2],
        PieceByte::ROOK => MIDGAME_PRICE[3],
        PieceByte::QUEEN => MIDGAME_PRICE[4],
        PieceByte::KING => 30000,
        PieceByte::NONE => 0,
    }
}

/// The midgame weight of a piece byte on square `y * 8 + x`.
fn mg_weight(piece: u8, y: usize, x: usize) -> (r: i32)
    requires
        y < 8,
        x < 8,
    ensures
        r == mg_square_weight(piece, (y * 8 + x) as int),
        -400 <= r <= 400,
{
    let c: usize = if x < 7 - x {
        x
    } else {
        7 - x
    };
    assert((y * 8 + x) as int / 8 == y && (y * 8 + x) as int % 8 == x);
    match piece.get_piece() {
        PieceByte::KING => MG_KING_WEIGHTS[7 - y][c],
        PieceByte::QUEEN => MG_QUEEN_WEIGHTS[7 - y][c],
        PieceByte::KNIGHT => MG_KNIGHT_WEIGHTS[7 - y][c],
        PieceByte::BISHOP => MG_BISHOP_WEIGHTS[7 - y][c],
        PieceByte::ROOK => MG_ROOK_WEIGHTS[7 - y][c],
        PieceByte::PAWN => MG_PAWN_WEIGHTS[7 - y][x],
        PieceByte::NONE => 0,
    }
}

/// The endgame weight of a piece byte on square `y * 8 + x`.
fn eg_weight(piece: u8, y: usize, x: usize) -> (r: i32)
    requires
        y < 8,
        x < 8,
    ensures
        r == eg_square_weight(piece, (y * 8 + x) as int),
        -400 <= r <= 400,
{
    let c: usize = if x < 7 - x {
        x
    } else {
        7 - x
    };
    assert((y * 8 + x) as int / 8 == y && (y * 8 + x) as int % 8 == x);
    match piece.get_piece() {
        PieceByte::KING => EG_KING_WEIGHTS[7 - y][c],
        PieceByte::QUEEN => EG_QUEEN_WEIGHTS[7 - y][c],
        PieceByte::KNIGHT => EG_KNIGHT_WEIGHTS[7 - y][c],
        PieceByte::BISHOP => EG_BISHOP_WEIGHTS[7 - y][c],
        PieceByte::ROOK => EG_ROOK_WEIGHTS[7 - y][c],
        PieceByte::PAWN => EG_PAWN_WEIGHTS[7 - y][x],
        PieceByte::NONE => 0,
    }
}

/// The sum of the midgame square weights of white's pieces.
pub fn midgame_weighted_position(board: &[u8; 64]) -> (r: i32)
    ensures
        r == mg_position_of(board@),
        -(64 * 400) <= r <= 64 * 400,
{
    let ghost f = |s: int| if byte_is_white(board@[s]) { mg_square_weight(board@[s], s) } else { 0 };
    let mut total: i32 = 0;
    let mut y: usize = 0;
    while y < 8
        invariant
            y <= 8,
            total == sum_squares(f, (y * 8) as int),
            -(y * 8 * 400) <= total <= y * 8 * 400,
            f == (|s: int| if byte_is_white(board@[s]) { mg_square_weight(board@[s], s) } else { 0 }),
        decreases 8 - y,
    {
        let mut x: usize = 0;
        while x < 8
            invariant
                y < 8,
                x <= 8,
                total == sum_squares(f, (y * 8 + x) as int),
                -((y * 8 + x) * 400) <= total <= (y * 8 + x) * 400,
                f == (|s: int| if byte_is_white(board@[s]) { mg_square_weight(board@[s], s) } else { 0 }),
            decreases 8 - x,
        {
            if board[y * 8 + x].is_white() {
                total = total + mg_weight(board[y * 8 + x], y, x);
            }
            x = x + 1;
        }
        y = y + 1;
    }
    total
}

/// The sum of the endgame square weights of white's pieces.
pub fn endgame_weighted_position(board: &[u8; 64]) -> (r: i32)
    ensures
        r == eg_position_of(board@),
{
    let ghost f = |s: int| if byte_is_white(board@[s]) { eg_square_weight(board@[s], s) } else { 0 };
    let mut total: i32 = 0;
    let mut y: usize = 0;
    while y < 8
        invariant
            y <= 8,
            total == sum_squares(f, (y * 8) as int),
            -(y * 8 * 400) <= total <= y * 8 * 400,
            f == (|s: int| if byte_is_white(board@[s]) { eg_square_weight(board@[s], s) } else { 0 }),
        decreases 8 - y,
    {
        let mut x: usize = 0;
        while x < 8
            invariant
                y < 8,
                x <= 8,
                total == sum_squares(f, (y * 8 + x) as int),
                -((y * 8 + x) * 400) <= total <= (y * 8 + x) * 400,
                f == (|s: int| if byte_is_white(board@[s]) { eg_square_weight(board@[s], s) } else { 0 }),
            decreases 8 - x,
        {
            if board[y * 8 + x].is_white() {
                total = total + eg_weight(board[y * 8 + x], y, x);
            }
            x = x + 1;
        }
        y = y + 1;
    }
    total
}

/// The midgame weight of a piece on every square, seen from its own side: for a black piece
/// the white table turned upside down.
pub fn get_visual_material_weights(piece: u8) -> (r: [i32; 64])
    ensures
        forall|s: int| 0 <= s < 64 ==> #[trigger] r@[s] == visual_weight(piece, s),
{
    let mut array: [i32; 64] = [0i32; 64];
    let black = piece.is_parity(Parity::BLACK);
    let mut y: usize = 0;
    while y < 8
        invariant
            y <= 8,
            black == byte_is_parity(piece, Parity::BLACK),
            forall|s: int| 0 <= s < y * 8 ==> #[trigger] array@[s] == visual_weight(piece, s),
        decreases 8 - y,
    {
        let mut x: usize = 0;
        while x < 8
            invariant
                y < 8,
                x <= 8,
                black == byte_is_parity(piece, Parity::BLACK),
                forall|s: int| 0 <= s < y * 8 + x ==> #[trigger] array@[s] == visual_weight(piece, s),
            decreases 8 - x,
        {
            let row: usize = if black {
                7 - y
            } else {
                y
            };
            array[y * 8 + x] = mg_weight(piece, row, x);
            proof {
                let s = (y * 8 + x) as int;
                assert(s / 8 == y && s % 8 == x);
            }
            x = x + 1;
        }
        y = y + 1;
    }
    array
}

} // verus!
