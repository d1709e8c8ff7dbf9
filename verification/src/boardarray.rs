use vstd::prelude::*;
use crate::bits::{bit, single, group_bits, mask_of, lemma_is_mask_of, lemma_and_single};
use crate::chessbyte::{
    ChessByte, byte_piece, byte_is_piece, byte_is_parity, byte_parity, byte_is_white_kind,
    byte_is_black_kind,
};
use crate::mask::Mask;
use crate::maskset::MaskSet;
use crate::moves::{
    bishop_move, bishop_masks, rook_move, rook_masks, queen_move, queen_masks, knight_move,
    knight_masks, king_move, king_masks, pawn_move, pawn_masks,
};
use crate::piece::{Parity, PieceByte, opposite};
use crate::state::RetainedStateInfo;
use crate::maskset::maskset_of;
use crate::zobrist::{Zobrist, piece_key_index, board_key, square_key, lemma_board_key_two_squares, lemma_xor_shared};
use crate::motion::MotionSet;
use crate::legal::{SideMotions, find_kings, side_motions, with_castles, motions_spec};
use crate::chessbyte::byte_is_white;
use crate::piece::{piece_code, parity_code};
use crate::mask::index_of;

verus! {

broadcast use group_bits;

/// The kinds of move the engine tells apart.
#[derive(Clone, Copy, Debug, PartialEq, Eq, Structural)]
pub enum MoveType {
    ENPASSANT,
    PROMOTION,
    CASTLE,
    TAKE,
    MOVE,
}

/// A board byte seen from the other side: a piece changes colour, anything else stays.
pub open spec fn flip_byte(b: u8) -> u8 {
    if b & 7u8 != 0 {
        b ^ 8u8
    } else {
        b
    }
}

/// The board turned upside down with the colours swapped.
pub open spec fn flipped_board(b: Seq<u8>) -> Seq<u8> {
    Seq::new(64, |s: int| flip_byte(b[(7 - s / 8) * 8 + s % 8]))
}

/// The moves and defended squares of the piece of byte `b` on `index`, seen as a piece of
/// side `parity` (which decides a pawn's direction); no moves for an empty square.
pub open spec fn piece_masks(
    b: u8,
    index: int,
    enemy: u64,
    pieces: u64,
    parity: Parity,
    ignore_diag: bool,
    enpassant: u64,
) -> (u64, u64) {
    match byte_piece(b) {
        PieceByte::ROOK => rook_masks(index, enemy, pieces),
        PieceByte::BISHOP => bishop_masks(index, enemy, pieces),
        PieceByte::QUEEN => queen_masks(index, enemy, pieces),
        PieceByte::PAWN => pawn_masks(index, enemy, pieces, parity, ignore_diag, enpassant),
        PieceByte::KNIGHT => knight_masks(index, enemy, pieces),
        PieceByte::KING => king_masks(index, enemy, pieces),
        PieceByte::NONE => (0u64, 0u64),
    }
}

/// The enemy squares of a side: black's for white, white's for every other side.
pub open spec fn enemy_of(ms: MaskSet, parity: Parity) -> u64 {
    if parity == Parity::WHITE {
        ms.black.raw
    } else {
        ms.white.raw
    }
}

/// Whether square `s` is reached by a piece of side `parity` on the board, counting pawn
/// diagonals whether or not they hold an enemy.
pub open spec fn attacks_square(b: Seq<u8>, parity: Parity, ms: MaskSet, enpassant: u64, s: int) -> bool {
    exists|idx: int|
        0 <= idx < 64 && byte_is_parity(b[idx], parity) && bit(
            #[trigger] piece_masks(b[idx], idx, enemy_of(ms, parity), ms.all.raw, parity, true, enpassant).0,
            s,
        )
}

/// The squares that side `parity` attacks.
pub open spec fn attack_mask(b: Seq<u8>, parity: Parity, ms: MaskSet, enpassant: u64) -> u64 {
    mask_of(|s: int| attacks_square(b, parity, ms, enpassant, s))
}

/// The last index below `n` whose byte satisfies `p`; 65 when there is none.
pub open spec fn last_index(b: Seq<u8>, p: spec_fn(u8) -> bool, n: int) -> int
    decreases n,
{
    if n <= 0 {
        65
    } else if p(b[n - 1]) {
        n - 1
    } else {
        last_index(b, p, n - 1)
    }
}

/// The squares of the white king and the black king that `get_kings` reports: the last square
/// of each, 65 when there is none.
pub open spec fn kings_of(b: Seq<u8>) -> (int, int) {
    (
        last_index(b, |v: u8| byte_is_white_kind(v, 5), 64),
        last_index(b, |v: u8| byte_is_black_kind(v, 5), 64),
    )
}

/// `s` with the values at `i` and `j` swapped.
pub open spec fn swap_seq(s: Seq<u8>, i: int, j: int) -> Seq<u8> {
    s.update(i, s[j]).update(j, s[i])
}

/// `s` with `v` or-ed into the value at `i`.
pub open spec fn or_at(s: Seq<u8>, i: int, v: u8) -> Seq<u8> {
    s.update(i, s[i] | v)
}

/// Whether a move is an en-passant capture: a pawn moving diagonally to an empty square.
pub open spec fn is_enpassant_move(b: Seq<u8>, from: int, to: int) -> bool {
    b[from] & 7u8 == 2 && b[to] & 7u8 == 0 && from % 8 != to % 8
}

/// Whether a move is a promotion: a pawn reaching the first or last row.
pub open spec fn is_promotion_move(b: Seq<u8>, from: int, to: int) -> bool {
    b[from] & 7u8 == 2 && (to < 8 || to > 55)
}

/// Whether a move is a castle: the king moving onto a rook of its own side.
pub open spec fn is_castle_move(b: Seq<u8>, from: int, to: int) -> bool {
    b[to] & 7u8 != 0 && (b[from] ^ b[to]) & 8u8 == 0 && b[from] & 7u8 == 5 && b[to] & 7u8 == 1
}

/// Whether a move takes a piece of the other side.
pub open spec fn is_take_move(b: Seq<u8>, from: int, to: int) -> bool {
    b[to] & 7u8 != 0 && !((b[to] ^ b[from]) & 8u8 == 0)
}

/// The indices a move touches lie on the board.
pub open spec fn move_in_range(b: Seq<u8>, from: int, to: int) -> bool {
    &&& 0 <= from < 64
    &&& 0 <= to < 64
    &&& is_enpassant_move(b, from, to) ==> (if from > to {
        to + 8 < 64
    } else {
        to >= 8
    })
    &&& (!is_enpassant_move(b, from, to) && !is_promotion_move(b, from, to) && is_castle_move(
        b,
        from,
        to,
    )) ==> (if from > to {
        from >= 2
    } else {
        from + 2 < 64
    })
}

/// The board after a move, as the engine plays it: an en-passant capture clears the pawn
/// passed; a promotion turns the pawn into a queen (code 2 becomes 4); a castle puts the king
/// two squares towards the rook and the rook next to it on the other side; otherwise the piece
/// moves and its origin is cleared. A moved piece gets the moved bit `0b1000_0000`.
pub open spec fn board_after(b: Seq<u8>, from: int, to: int) -> Seq<u8> {
    if is_enpassant_move(b, from, to) {
        let c = if from > to {
            to + 8
        } else {
            to - 8
        };
        or_at(swap_seq(b.update(c, 0u8), from, to), to, 0b1000_0000u8)
    } else if is_promotion_move(b, from, to) {
        let s1 = swap_seq(b, from, to);
        let s2 = s1.update(to, (s1[to] ^ 0b0000_0110u8) | 0b1000_0000u8);
        s2.update(from, 0u8)
    } else if is_castle_move(b, from, to) {
        if from > to {
            let s1 = swap_seq(swap_seq(b, from, from - 2), to, from - 1);
            or_at(or_at(s1, from - 2, 0b1000_0000u8), from - 1, 0b1000_0000u8)
        } else {
            let s1 = swap_seq(swap_seq(b, from, from + 2), to, from + 1);
            or_at(or_at(s1, from + 2, 0b1000_0000u8), from + 1, 0b1000_0000u8)
        }
    } else if is_take_move(b, from, to) {
        or_at(swap_seq(b, from, to).update(from, 0u8), to, 0b1000_0000u8)
    } else {
        or_at(swap_seq(b, from, to), to, 0b1000_0000u8).update(from, 0u8)
    }
}


/// Whether a move can be made: the null move `65 -> 65`, a move from an empty square of the
/// board (which changes nothing, wherever it goes), or a move within the board.
pub open spec fn make_ok(b: Seq<u8>, from: int, to: int) -> bool {
    ||| (from == 65 && to == 65)
    ||| (0 <= from < 64 && !byte_is_piece(b[from]))
    ||| move_in_range(b, from, to)
}

/// The castling rights after a move touching `from` and `to`: moving or taking on a king or
/// rook square gives up the rights that depend on it.
pub open spec fn castles_after(ac: u8, from: int, to: int) -> u8 {
    let a1: u8 = if from == 60 || to == 60 {
        ac & 0b0000_0011u8
    } else if from == 4 || to == 4 {
        ac & 0b0000_1100u8
    } else {
        ac
    };
    let a2: u8 = if from == 56 || to == 56 {
        a1 & 0b0000_0111u8
    } else if from == 63 || to == 63 {
        a1 & 0b0000_1011u8
    } else {
        a1
    };
    if from == 0 || to == 0 {
        a2 & 0b0000_1101u8
    } else if from == 7 || to == 7 {
        a2 & 0b0000_1110u8
    } else {
        a2
    }
}

/// The castling rights after making a move on the board.
pub open spec fn rights_after(b: Seq<u8>, from: int, to: int, ac: u8) -> u8 {
    let a = castles_after(ac, from, to);
    if !is_enpassant_move(b, from, to) && !is_promotion_move(b, from, to) && is_castle_move(b, from, to) {
        a & (if from == 60 { 0b0000_0011u8 } else { 0b0000_1100u8 })
    } else {
        a
    }
}

/// The en-passant square after a move: the square passed by a pawn's double step.
pub open spec fn enpassant_after(b: Seq<u8>, from: int, to: int) -> u64 {
    if b[from] & 7u8 == 2 && (from - to > 15 || to - from > 15) {
        if from > to {
            single(to) << 8u64
        } else {
            single(to) >> 8u64
        }
    } else {
        0u64
    }
}

/// The key of piece byte `v` on square `i`.
pub open spec fn zk(z: &Zobrist, v: u8, i: int) -> u64 {
    z.piece_key(i, piece_key_index(v & 15u8))
}

/// The byte of a piece of kind `k` on side `p`.
pub open spec fn kind_side(k: PieceByte, p: Parity) -> u8 {
    piece_code(k) | parity_code(p)
}

/// The position key after a move: the keys of the pieces that left or reached a square are
/// toggled.
pub open spec fn zkey_after(z: &Zobrist, b: Seq<u8>, from: int, to: int, key: u64) -> u64 {
    let pf = byte_parity(b[from]);
    if is_enpassant_move(b, from, to) {
        let c = if from > to {
            to + 8
        } else {
            to - 8
        };
        key ^ zk(z, kind_side(PieceByte::PAWN, pf), from) ^ zk(z, kind_side(PieceByte::PAWN, pf), to)
            ^ zk(z, kind_side(PieceByte::PAWN, opposite(pf)), c)
    } else if is_promotion_move(b, from, to) {
        key ^ zk(z, kind_side(PieceByte::PAWN, pf), from) ^ zk(z, kind_side(PieceByte::QUEEN, pf), to)
    } else if is_castle_move(b, from, to) {
        let k2 = if from > to {
            from - 2
        } else {
            from + 2
        };
        let r1 = if from > to {
            from - 1
        } else {
            from + 1
        };
        key ^ zk(z, kind_side(PieceByte::KING, pf), from) ^ zk(
            z,
            kind_side(PieceByte::ROOK, byte_parity(b[to])),
            to,
        ) ^ zk(z, kind_side(PieceByte::KING, pf), k2) ^ zk(z, kind_side(PieceByte::ROOK, pf), r1)
    } else if is_take_move(b, from, to) {
        key ^ zk(z, kind_side(byte_piece(b[from]), pf), from) ^ zk(
            z,
            kind_side(byte_piece(b[to]), byte_parity(b[to])),
            to,
        ) ^ zk(z, kind_side(byte_piece(b[from] | 0b1000_0000u8), byte_parity(b[from] | 0b1000_0000u8)), to)
    } else {
        key ^ zk(z, kind_side(byte_piece(b[from]), pf), from) ^ zk(z, kind_side(byte_piece(b[from]), pf), to)
    }
}

/// The king squares after a move: a castling king lands two squares towards the rook, and a
/// king that moves or takes lands on `to`.
pub open spec fn kings_after(b: Seq<u8>, from: int, to: int, k: Seq<usize>) -> Seq<usize> {
    let slot = if byte_is_white(b[from]) {
        0int
    } else {
        1int
    };
    if is_enpassant_move(b, from, to) || is_promotion_move(b, from, to) {
        k
    } else if is_castle_move(b, from, to) {
        k.update(slot, (if from > to { from - 2 } else { from + 2 }) as usize)
    } else if b[from] & 7u8 == 5 {
        k.update(slot, to as usize)
    } else {
        k
    }
}

/// The board that `make` leaves: unchanged for the null move `65 -> 65` or when no piece stands
/// on `from`, else the board after the move.
pub open spec fn board_made(b: Seq<u8>, from: int, to: int) -> Seq<u8> {
    if (from == 65 && to == 65) || !byte_is_piece(b[from]) {
        b
    } else {
        board_after(b, from, to)
    }
}

/// Whether `new` is the retained state that `make` leaves after `old`: the null move only
/// clears the en-passant square; a move from an empty square changes nothing; a move updates
/// the position key, castling rights, en-passant square, king squares and masks, and keeps
/// the clocks.
pub open spec fn info_made(
    z: &Zobrist,
    b: Seq<u8>,
    from: int,
    to: int,
    old: RetainedStateInfo,
    new: RetainedStateInfo,
) -> bool {
    if from == 65 && to == 65 {
        new == (RetainedStateInfo { enpassant_mask: Mask { raw: 0 }, ..old })
    } else if !byte_is_piece(b[from]) {
        new == old
    } else {
        &&& new.zkey == zkey_after(z, b, from, to, old.zkey)
        &&& new.allowed_castles == rights_after(b, from, to, old.allowed_castles)
        &&& new.enpassant_mask.raw == enpassant_after(b, from, to)
        &&& new.king_indices@ == kings_after(b, from, to, old.king_indices@)
        &&& new.maskset == maskset_of(board_after(b, from, to))
        &&& new.halfmove_clock == old.halfmove_clock
        &&& new.fullmove_number == old.fullmove_number
    }
}

/// The board after a piece moves from `from` to `to` as `with_move` plays it: the
/// piece lands with the moved bit, its square is cleared, and when the move lands on the
/// en-passant square (`ep_hit`) the square behind it (one row back from `to`, towards `from`)
/// is cleared too.
pub open spec fn moved_board(b: Seq<u8>, from: int, to: int, ep_hit: bool, up: bool) -> Seq<u8> {
    let s1 = b.update(to, b[from] | 0b1000_0000u8);
    let s2 = s1.update(from, 0u8);
    if ep_hit {
        if up {
            s2.update(to - 8, 0u8)
        } else {
            s2.update(to + 8, 0u8)
        }
    } else {
        s2
    }
}

/// Whether the move fits on the board: both squares on it, and the square behind an en-passant
/// landing too.
pub open spec fn moved_ok(b: Seq<u8>, from: int, to: int, ep_hit: bool, up: bool) -> bool {
    &&& 0 <= from < 64
    &&& 0 <= to < 64
    &&& ep_hit ==> (if up { to >= 8 } else { to + 8 < 64 })
}

/// The castling rights left after reading bytes `0..n`: a moved king gives up its side's
/// rights (white keeps `0b1100`, black keeps `0b0011`); a moved rook gives up the right of its
/// flank (white's kingside and queenside rooks bits 0 and 1, black's bits 2 and 3); once no
/// right is left the reading stops.
pub open spec fn castles_read(b: Seq<u8>, start: u8, n: int) -> u8
    decreases n,
{
    if n <= 0 {
        start
    } else {
        let c = castles_read(b, start, n - 1);
        let v = b[n - 1];
        if c == 0 || v & 0b1000_0000u8 == 0 {
            c
        } else if byte_piece(v) == PieceByte::KING {
            c & (if byte_parity(v) == Parity::WHITE { 0b0000_1100u8 } else { 0b0000_0011u8 })
        } else if byte_piece(v) == PieceByte::ROOK {
            if byte_parity(v) == Parity::WHITE {
                let c1 = if c & 1u8 != 0 && v & 0b0010_0111u8 != 0 { c & 0b1111_1110u8 } else { c };
                if c1 & 2u8 != 0 && v & 0b0100_0111u8 != 0 { c1 & 0b1111_1101u8 } else { c1 }
            } else {
                let c1 = if c & 4u8 != 0 && v & 0b0010_0111u8 != 0 { c & 0b1111_1011u8 } else { c };
                if c1 & 8u8 != 0 && v & 0b0100_0111u8 != 0 { c1 & 0b1111_0111u8 } else { c1 }
            }
        } else {
            c
        }
    }
}

/// A pair of king squares with one slot replaced.
pub fn set_slot(k: [usize; 2], slot: usize, v: usize) -> (r: [usize; 2])
    requires
        slot < 2,
    ensures
        r@ == k@.update(slot as int, v),
{
    let mut out = k;
    out[slot] = v;
    proof {
        assert(out@ =~= k@.update(slot as int, v));
    }
    out
}

/// Swap two squares of a board.
pub fn swap_squares(board: &mut [u8; 64], i: usize, j: usize)
    requires
        i < 64,
        j < 64,
    ensures
        final(board)@ == swap_seq(old(board)@, i as int, j as int),
{
    let a = board[i];
    let b = board[j];
    board[i] = b;
    board[j] = a;
}

/// The en-passant square that a move leaves behind.
fn passant_after(board: &[u8; 64], from: usize, to: usize) -> (r: u64)
    requires
        from < 64,
        to < 64,
    ensures
        r == enpassant_after(board@, from as int, to as int),
{
    let gap: usize = if from > to {
        from - to
    } else {
        to - from
    };
    if board[from].is_pawn() && gap > 15 {
        let ep = Mask::from_index(to);
        if from > to {
            ep.raw << 8
        } else {
            ep.raw >> 8
        }
    } else {
        0
    }
}

/// The castling rights that remain after a move.
fn castle_rights_after(board: &[u8; 64], from: usize, to: usize, allowed: u8) -> (r: u8)
    requires
        from < 64,
        to < 64,
    ensures
        r == rights_after(board@, from as int, to as int, allowed),
{
    let is_enpassant = board[from].is_pawn() && !board[to].is_piece() && from % 8 != to % 8;
    let is_promotion = board[from].is_pawn() && (to < 8 || to > 55);
    let is_castle = board[to].is_piece() && board[from].same_parity(&board[to]) && board[from].is_king()
        && board[to].is_rook();
    let mut a = allowed;
    if from == 60 || to == 60 {
        a = a & 0b0000_0011;
    } else if from == 4 || to == 4 {
        a = a & 0b0000_1100;
    }
    if from == 56 || to == 56 {
        a = a & 0b0000_0111;
    } else if from == 63 || to == 63 {
        a = a & 0b0000_1011;
    }
    if from == 0 || to == 0 {
        a = a & 0b0000_1101;
    } else if from == 7 || to == 7 {
        a = a & 0b0000_1110;
    }
    if !is_enpassant && !is_promotion && is_castle {
        a = a & if from == 60 {
            0b0000_0011
        } else {
            0b0000_1100
        };
    }
    a
}

/// Play an en-passant capture; gives the new position key.
fn play_enpassant(board: &mut [u8; 64], from: usize, to: usize, zobrist: &Zobrist, key: u64) -> (r: u64)
    requires
        move_in_range(old(board)@, from as int, to as int),
        is_enpassant_move(old(board)@, from as int, to as int),
    ensures
        final(board)@ == board_after(old(board)@, from as int, to as int),
        r == zkey_after(zobrist, old(board)@, from as int, to as int, key),
{
    let ghost b = board@;
    let pf = board[from].get_parity();
    let mut k = key ^ zobrist.pieces(&PieceByte::PAWN.with_parity(pf), from);
    k = k ^ zobrist.pieces(&PieceByte::PAWN.with_parity(pf), to);
    if from > to {
        k = k ^ zobrist.pieces(&PieceByte::PAWN.with_parity(pf.not()), to + 8);
        board[to + 8] = 0;
    } else {
        k = k ^ zobrist.pieces(&PieceByte::PAWN.with_parity(pf.not()), to - 8);
        board[to - 8] = 0;
    }
    swap_squares(board, from, to);
    board[to] = board[to] | 0b1000_0000;
    proof {
        assert(board@ =~= board_after(b, from as int, to as int));
    }
    k
}

/// Play a promotion to a queen; gives the new position key.
fn play_promotion(board: &mut [u8; 64], from: usize, to: usize, zobrist: &Zobrist, key: u64) -> (r: u64)
    requires
        move_in_range(old(board)@, from as int, to as int),
        !is_enpassant_move(old(board)@, from as int, to as int),
        is_promotion_move(old(board)@, from as int, to as int),
    ensures
        final(board)@ == board_after(old(board)@, from as int, to as int),
        r == zkey_after(zobrist, old(board)@, from as int, to as int, key),
{
    let ghost b = board@;
    let pf = board[from].get_parity();
    let mut k = key ^ zobrist.pieces(&PieceByte::PAWN.with_parity(pf), from);
    k = k ^ zobrist.pieces(&PieceByte::QUEEN.with_parity(pf), to);
    swap_squares(board, from, to);
    board[to] = board[to] ^ 0b0000_0110;
    board[to] = board[to] | 0b1000_0000;
    board[from] = 0;
    proof {
        assert(board@ =~= board_after(b, from as int, to as int));
    }
    k
}

/// Play a castle: the king goes two squares towards the rook and the rook next to it on the
/// other side; gives the new position key and the king's square.
fn play_castle(board: &mut [u8; 64], from: usize, to: usize, zobrist: &Zobrist, key: u64) -> (r: (u64, usize))
    requires
        move_in_range(old(board)@, from as int, to as int),
        !is_enpassant_move(old(board)@, from as int, to as int),
        !is_promotion_move(old(board)@, from as int, to as int),
        is_castle_move(old(board)@, from as int, to as int),
    ensures
        final(board)@ == board_after(old(board)@, from as int, to as int),
        r.0 == zkey_after(zobrist, old(board)@, from as int, to as int, key),
        r.1 == (if from > to { from - 2 } else { from + 2 }),
{
    let ghost b = board@;
    let pf = board[from].get_parity();
    let mut k = key ^ zobrist.pieces(&PieceByte::KING.with_parity(pf), from);
    k = k ^ zobrist.pieces(&PieceByte::ROOK.with_parity(board[to].get_parity()), to);
    let king_to: usize;
    if from > to {
        king_to = from - 2;
        k = k ^ zobrist.pieces(&PieceByte::KING.with_parity(pf), from - 2);
        k = k ^ zobrist.pieces(&PieceByte::ROOK.with_parity(pf), from - 1);
        swap_squares(board, from, from - 2);
        swap_squares(board, to, from - 1);
        board[from - 2] = board[from - 2] | 0b1000_0000;
        board[from - 1] = board[from - 1] | 0b1000_0000;
    } else {
        king_to = from + 2;
        k = k ^ zobrist.pieces(&PieceByte::KING.with_parity(pf), from + 2);
        k = k ^ zobrist.pieces(&PieceByte::ROOK.with_parity(pf), from + 1);
        swap_squares(board, from, from + 2);
        swap_squares(board, to, from + 1);
        board[from + 2] = board[from + 2] | 0b1000_0000;
        board[from + 1] = board[from + 1] | 0b1000_0000;
    }
    proof {
        assert(board@ =~= board_after(b, from as int, to as int));
    }
    (k, king_to)
}

/// Play a capture; gives the new position key.
fn play_take(board: &mut [u8; 64], from: usize, to: usize, zobrist: &Zobrist, key: u64) -> (r: u64)
    requires
        move_in_range(old(board)@, from as int, to as int),
        !is_enpassant_move(old(board)@, from as int, to as int),
        !is_promotion_move(old(board)@, from as int, to as int),
        !is_castle_move(old(board)@, from as int, to as int),
        is_take_move(old(board)@, from as int, to as int),
    ensures
        final(board)@ == board_after(old(board)@, from as int, to as int),
        r == zkey_after(zobrist, old(board)@, from as int, to as int, key),
{
    let ghost b = board@;
    proof {
        let v = b[from as int];
        assert(((v ^ v) & 8u8) == 0) by (bit_vector);
    }
    let pf = board[from].get_parity();
    let mut k = key ^ zobrist.pieces(&board[from].get_piece().with_parity(pf), from);
    k = k ^ zobrist.pieces(&board[to].get_piece().with_parity(board[to].get_parity()), to);
    swap_squares(board, from, to);
    board[from] = 0;
    board[to] = board[to] | 0b1000_0000;
    k = k ^ zobrist.pieces(&board[to].get_piece().with_parity(board[to].get_parity()), to);
    proof {
        assert(board@ =~= board_after(b, from as int, to as int));
    }
    k
}

/// Play a move to a square without capture; gives the new position key.
fn play_quiet(board: &mut [u8; 64], from: usize, to: usize, zobrist: &Zobrist, key: u64) -> (r: u64)
    requires
        move_in_range(old(board)@, from as int, to as int),
        !is_enpassant_move(old(board)@, from as int, to as int),
        !is_promotion_move(old(board)@, from as int, to as int),
        !is_castle_move(old(board)@, from as int, to as int),
        !is_take_move(old(board)@, from as int, to as int),
    ensures
        final(board)@ == board_after(old(board)@, from as int, to as int),
        r == zkey_after(zobrist, old(board)@, from as int, to as int, key),
{
    let ghost b = board@;
    let pf = board[from].get_parity();
    let mut k = key ^ zobrist.pieces(&board[from].get_piece().with_parity(pf), from);
    swap_squares(board, from, to);
    k = k ^ zobrist.pieces(&board[to].get_piece().with_parity(board[to].get_parity()), to);
    board[to] = board[to] | 0b1000_0000;
    board[from] = 0;
    proof {
        assert(board@ =~= board_after(b, from as int, to as int));
    }
    k
}

/// Play a move on the board; gives the new position key and king squares.
fn play_move(
    board: &mut [u8; 64],
    from: usize,
    to: usize,
    zobrist: &Zobrist,
    key: u64,
    kings: [usize; 2],
) -> (r: (u64, [usize; 2]))
    requires
        move_in_range(old(board)@, from as int, to as int),
    ensures
        final(board)@ == board_after(old(board)@, from as int, to as int),
        r.0 == zkey_after(zobrist, old(board)@, from as int, to as int, key),
        r.1@ == kings_after(old(board)@, from as int, to as int, kings@),
{
    let is_enpassant = board[from].is_pawn() && !board[to].is_piece() && from % 8 != to % 8;
    let is_promotion = board[from].is_pawn() && (to < 8 || to > 55);
    let is_castle = board[to].is_piece() && board[from].same_parity(&board[to]) && board[from].is_king()
        && board[to].is_rook();
    let is_take = board[to].is_piece() && !board[to].same_parity(&board[from]);
    let slot: usize = if board[from].is_white() {
        0
    } else {
        1
    };
    let is_king = board[from].is_king();
    if is_enpassant {
        let k = play_enpassant(board, from, to, zobrist, key);
        (k, kings)
    } else if is_promotion {
        let k = play_promotion(board, from, to, zobrist, key);
        (k, kings)
    } else if is_castle {
        let (k, king_to) = play_castle(board, from, to, zobrist, key);
        (k, set_slot(kings, slot, king_to))
    } else if is_take {
        let k = play_take(board, from, to, zobrist, key);
        (k, if is_king { set_slot(kings, slot, to) } else { kings })
    } else {
        let k = play_quiet(board, from, to, zobrist, key);
        (k, if is_king { set_slot(kings, slot, to) } else { kings })
    }
}

/// With no castling right left the reading keeps none.
proof fn lemma_castles_read_zero(b: Seq<u8>, start: u8, i: int, n: int)
    requires
        0 <= i <= n,
        castles_read(b, start, i) == 0,
    ensures
        castles_read(b, start, n) == 0,
    decreases n - i,
{
    if n > i {
        lemma_castles_read_zero(b, start, i, n - 1);
    }
}

/// An ordinary move (a piece moving to an empty square or onto a piece of the other colour,
/// other than a pawn's promotion or en-passant capture) puts the piece, with the moved bit,
/// on the square it reaches, empties its square and leaves every other square as it was.
pub proof fn lemma_ordinary_move(b: Seq<u8>, from: int, to: int)
    requires
        b.len() == 64,
        0 <= from < 64,
        0 <= to < 64,
        from != to,
        b[from] & 7u8 != 0,
        b[to] & 7u8 == 0 || (b[from] ^ b[to]) & 8u8 != 0,
        !(b[from] & 7u8 == 2 && (to < 8 || to > 55)),
        !(b[from] & 7u8 == 2 && b[to] & 7u8 == 0 && from % 8 != to % 8),
    ensures
        board_after(b, from, to)[to] == b[from] | 0b1000_0000u8,
        board_after(b, from, to)[from] == 0,
        forall|j: int| 0 <= j < 64 && j != from && j != to ==> #[trigger] board_after(b, from, to)[j] == b[j],
        board_after(b, from, to).len() == 64,
{
    assert(!is_castle_move(b, from, to));
}

/// An en-passant capture (a pawn moving diagonally to an empty square) puts the pawn, with the
/// moved bit, on the square it reaches, empties its square and the square behind the one it
/// reaches (the passed pawn's), and leaves every other square as it was.
pub proof fn lemma_en_passant_move(b: Seq<u8>, from: int, to: int)
    requires
        b.len() == 64,
        0 <= from < 64,
        0 <= to < 64,
        b[from] & 7u8 == 2,
        b[to] & 7u8 == 0,
        from % 8 != to % 8,
        if from > to { to + 8 < 64 } else { to >= 8 },
    ensures
        ({
            let c = if from > to { to + 8 } else { to - 8 };
            let a = board_after(b, from, to);
            &&& a[to] == b[from] | 0b1000_0000u8
            &&& a[from] == b[to]
            &&& a[c] == 0
            &&& forall|j: int| 0 <= j < 64 && j != from && j != to && j != c ==> #[trigger] a[j] == b[j]
        }),
{
    let c = if from > to { to + 8 } else { to - 8 };
    assert(c != from);
    assert(c != to);
}

/// Castling (a king moving onto a rook of its own colour at least three squares away along
/// its row) puts the king two squares towards the rook and the rook on the square the king
/// crossed, both with the moved bit; the king's and the rook's squares take what stood on the
/// squares they went to, and every other square stays as it was.
pub proof fn lemma_castle_move(b: Seq<u8>, from: int, to: int)
    requires
        b.len() == 64,
        0 <= from < 64,
        0 <= to < 64,
        b[from] & 7u8 == 5,
        b[to] & 7u8 == 1,
        (b[from] ^ b[to]) & 8u8 == 0,
        to + 2 < from || from + 2 < to,
    ensures
        ({
            let a = board_after(b, from, to);
            let k = if from > to { from - 2 } else { from + 2 };
            let r = if from > to { from - 1 } else { from + 1 };
            &&& a[k] == b[from] | 0b1000_0000u8
            &&& a[r] == b[to] | 0b1000_0000u8
            &&& a[from] == b[k]
            &&& a[to] == b[r]
            &&& forall|j: int| 0 <= j < 64 && j != from && j != to && j != k && j != r ==> #[trigger] a[j] == b[j]
        }),
{
    assert(!is_enpassant_move(b, from, to));
    assert(!is_promotion_move(b, from, to));
    assert(is_castle_move(b, from, to));
}

/// After a king's move (to an empty square or onto a piece of the other colour) or its castling,
/// the king square recorded for its colour is the square where the king now stands; any other
/// piece's move leaves the recorded king squares as they were.
pub proof fn lemma_kings_follow_king(b: Seq<u8>, from: int, to: int, k: Seq<usize>)
    requires
        b.len() == 64,
        k.len() == 2,
        0 <= from < 64,
        0 <= to < 64,
        from != to,
    ensures
        b[from] & 7u8 == 5 && (b[to] & 7u8 == 0 || (b[from] ^ b[to]) & 8u8 != 0) ==> {
            let slot = if byte_is_white(b[from]) { 0int } else { 1int };
            board_after(b, from, to)[kings_after(b, from, to, k)[slot] as int] == b[from] | 0b1000_0000u8
        },
        b[from] & 7u8 == 5 && b[to] & 7u8 == 1 && (b[from] ^ b[to]) & 8u8 == 0 && (to + 2 < from || from + 2 < to)
            ==> {
            let slot = if byte_is_white(b[from]) { 0int } else { 1int };
            board_after(b, from, to)[kings_after(b, from, to, k)[slot] as int] == b[from] | 0b1000_0000u8
        },
        b[from] & 7u8 != 5 ==> kings_after(b, from, to, k) == k,
{
    if b[from] & 7u8 == 5 && (b[to] & 7u8 == 0 || (b[from] ^ b[to]) & 8u8 != 0) {
        lemma_ordinary_move(b, from, to);
    }
    if b[from] & 7u8 == 5 && b[to] & 7u8 == 1 && (b[from] ^ b[to]) & 8u8 == 0 && (to + 2 < from || from + 2 < to) {
        lemma_castle_move(b, from, to);
    }
}

/// A pawn's double step leaves exactly the square it passed over as the en-passant square; a
/// move of any other piece leaves none.
pub proof fn lemma_double_step_passant(b: Seq<u8>, from: int, to: int)
    requires
        0 <= from < 64,
        0 <= to < 64,
    ensures
        b[from] & 7u8 == 2 && (to == from + 16 || to == from - 16) ==> forall|j: int|
            #![trigger bit(enpassant_after(b, from, to), j)]
            bit(enpassant_after(b, from, to), j) == (j == (from + to) / 2),
        b[from] & 7u8 != 2 ==> enpassant_after(b, from, to) == 0,
{
    if b[from] & 7u8 == 2 && (to == from + 16 || to == from - 16) {
        assert forall|j: int| #![trigger bit(enpassant_after(b, from, to), j)] bit(enpassant_after(b, from, to), j)
            == (j == (from + to) / 2) by {
            if from > to {
                assert(bit(single(to) << 8u64, j) == (0 <= j < 64 && j >= 8 && bit(single(to), j - 8)));
                assert(bit(single(to), j - 8) == (to == j - 8));
            } else {
                assert(bit(single(to) >> 8u64, j) == (0 <= j < 64 && bit(single(to), j + 8)));
                assert(bit(single(to), j + 8) == (to == j + 8));
            }
        }
    }
}

/// The bit arithmetic of castling rights under a mask.
proof fn lemma_rights_bits(x: u8, m: u8)
    by (bit_vector)
    ensures
        (x & m) & 1u8 != 0 ==> x & 1u8 != 0 && m & 1u8 != 0,
        (x & m) & 2u8 != 0 ==> x & 2u8 != 0 && m & 2u8 != 0,
        (x & m) & 4u8 != 0 ==> x & 4u8 != 0 && m & 4u8 != 0,
        (x & m) & 8u8 != 0 ==> x & 8u8 != 0 && m & 8u8 != 0,
        0b0011u8 & 4u8 == 0 && 0b0011u8 & 8u8 == 0 && 0b1100u8 & 1u8 == 0 && 0b1100u8 & 2u8 == 0,
        0b1011u8 & 4u8 == 0 && 0b0111u8 & 8u8 == 0 && 0b1101u8 & 2u8 == 0 && 0b1110u8 & 1u8 == 0,
        (x | 0b1000_0000u8) & 7u8 == x & 7u8,
        (x | 0b1000_0000u8) & 8u8 == x & 8u8,
        (x & 15u8) & 7u8 == x & 7u8,
        (x & 15u8) & 8u8 == x & 8u8,
        0u8 & 7u8 == 0u8,
        (x ^ m) == (m ^ x),
{
}

/// A move never adds a castling right, and moving from or onto a king's or a rook's home square
/// takes away the rights that depend on it: the white king's square 60 both of white's, the black
/// king's square 4 both of black's, the corner 63 white's kingside, 56 white's queenside, 7
/// black's kingside and 0 black's queenside (when the move does not also touch the other corner
/// of the same row, which is looked at first).
pub proof fn lemma_rights_after(b: Seq<u8>, from: int, to: int, ac: u8)
    ensures
        rights_after(b, from, to, ac) & 1u8 != 0 ==> ac & 1u8 != 0,
        rights_after(b, from, to, ac) & 2u8 != 0 ==> ac & 2u8 != 0,
        rights_after(b, from, to, ac) & 4u8 != 0 ==> ac & 4u8 != 0,
        rights_after(b, from, to, ac) & 8u8 != 0 ==> ac & 8u8 != 0,
        from == 60 || to == 60 ==> rights_after(b, from, to, ac) & 4u8 == 0 && rights_after(b, from, to, ac)
            & 8u8 == 0,
        (from == 4 || to == 4) && from != 60 && to != 60 ==> rights_after(b, from, to, ac) & 1u8 == 0
            && rights_after(b, from, to, ac) & 2u8 == 0,
        from == 56 || to == 56 ==> rights_after(b, from, to, ac) & 8u8 == 0,
        (from == 63 || to == 63) && from != 56 && to != 56 ==> rights_after(b, from, to, ac) & 4u8 == 0,
        from == 0 || to == 0 ==> rights_after(b, from, to, ac) & 2u8 == 0,
        (from == 7 || to == 7) && from != 0 && to != 0 ==> rights_after(b, from, to, ac) & 1u8 == 0,
{
    let a1: u8 = if from == 60 || to == 60 {
        ac & 0b0000_0011u8
    } else if from == 4 || to == 4 {
        ac & 0b0000_1100u8
    } else {
        ac
    };
    let a2: u8 = if from == 56 || to == 56 {
        a1 & 0b0000_0111u8
    } else if from == 63 || to == 63 {
        a1 & 0b0000_1011u8
    } else {
        a1
    };
    let a3: u8 = if from == 0 || to == 0 {
        a2 & 0b0000_1101u8
    } else if from == 7 || to == 7 {
        a2 & 0b0000_1110u8
    } else {
        a2
    };
    assert(castles_after(ac, from, to) == a3);
    let m1: u8 = if from == 60 || to == 60 { 0b0000_0011u8 } else { 0b0000_1100u8 };
    let m2: u8 = if from == 56 || to == 56 { 0b0000_0111u8 } else { 0b0000_1011u8 };
    let m3: u8 = if from == 0 || to == 0 { 0b0000_1101u8 } else { 0b0000_1110u8 };
    let m4: u8 = if from == 60 { 0b0000_0011u8 } else { 0b0000_1100u8 };
    lemma_rights_bits(ac, m1);
    lemma_rights_bits(a1, m2);
    lemma_rights_bits(a2, m3);
    lemma_rights_bits(a3, m4);
}

/// The key of a piece's canonical byte (its kind and colour alone) is the key the board gives
/// the piece, and the moved bit does not change a piece's key.
proof fn lemma_canonical_key(z: &Zobrist, v: u8, i: int)
    requires
        1 <= v & 7u8 <= 6,
    ensures
        zk(z, kind_side(byte_piece(v), byte_parity(v)), i) == square_key(z, v, i),
        square_key(z, v | 0b1000_0000u8, i) == square_key(z, v, i),
{
    lemma_rights_bits(v, 0u8);
    crate::ui::lemma_white_piece_bytes();
    let u = kind_side(byte_piece(v), byte_parity(v));
    lemma_rights_bits(u, 0u8);
    assert(u & 7u8 == v & 7u8);
    assert((u & 8u8 != 0) == (v & 8u8 != 0));
    assert(piece_key_index(u & 15u8) == piece_key_index(v));
}

/// The position key follows the board through an ordinary move (a piece moving to an empty
/// square or taking a piece of the other colour, other than a promotion or an en-passant
/// capture): the key changes by exactly the change of the board's piece keys.
pub proof fn lemma_move_key_follows_board(z: &Zobrist, b: Seq<u8>, from: int, to: int, key: u64)
    requires
        b.len() == 64,
        0 <= from < 64,
        0 <= to < 64,
        from != to,
        1 <= b[from] & 7u8 <= 6,
        b[to] & 7u8 == 0 || ((b[from] ^ b[to]) & 8u8 != 0 && 1 <= b[to] & 7u8 <= 6),
        !(b[from] & 7u8 == 2 && (to < 8 || to > 55)),
        !(b[from] & 7u8 == 2 && b[to] & 7u8 == 0 && from % 8 != to % 8),
    ensures
        zkey_after(z, b, from, to, key) ^ key == board_key(z, board_after(b, from, to), 64) ^ board_key(z, b, 64),
{
    lemma_ordinary_move(b, from, to);
    let a = board_after(b, from, to);
    lemma_board_key_two_squares(z, b, a, from, to, 64);
    lemma_rights_bits(b[from], b[to]);
    lemma_rights_bits(0u8, 0u8);
    lemma_canonical_key(z, b[from], from);
    lemma_canonical_key(z, b[from], to);
    lemma_rights_bits(b[from], 0u8);
    lemma_canonical_key(z, b[from] | 0b1000_0000u8, to);
    let cf = square_key(z, b[from], from);
    let ct = square_key(z, b[from], to);
    assert(square_key(z, a[from], from) == 0u64);
    assert(square_key(z, a[to], to) == ct);
    assert(!is_enpassant_move(b, from, to));
    assert(!is_promotion_move(b, from, to));
    assert(!is_castle_move(b, from, to));
    if b[to] & 7u8 == 0 {
        assert(square_key(z, b[to], to) == 0u64);
        assert(!is_take_move(b, from, to));
        lemma_xor_shared(key, cf, ct, 0u64);
    } else {
        lemma_canonical_key(z, b[to], to);
        let cto = square_key(z, b[to], to);
        assert(is_take_move(b, from, to));
        lemma_xor_shared(key, cf, cto, ct);
    }
}

/// The position key follows the board through a pawn's straight step onto the first or the last
/// row: it changes by exactly the change of the board's piece keys, the pawn's key leaving its
/// square and the queen's (the piece the board now shows) arriving.
pub proof fn lemma_promotion_key_follows_board(z: &Zobrist, b: Seq<u8>, from: int, to: int, key: u64)
    requires
        b.len() == 64,
        0 <= from < 64,
        0 <= to < 64,
        from != to,
        b[from] & 7u8 == 2,
        to < 8 || to > 55,
        b[to] & 7u8 == 0,
        from % 8 == to % 8,
    ensures
        zkey_after(z, b, from, to, key) ^ key == board_key(z, board_after(b, from, to), 64) ^ board_key(z, b, 64),
{
    lemma_promotion_makes_queen(b, from, to);
    let a = board_after(b, from, to);
    lemma_board_key_two_squares(z, b, a, from, to, 64);
    lemma_rights_bits(0u8, 0u8);
    lemma_promoted_byte(b[from]);
    lemma_canonical_key(z, b[from], from);
    lemma_canonical_key(z, a[to], to);
    assert(byte_parity(a[to]) == byte_parity(b[from]));
    assert(byte_piece(b[from]) == PieceByte::PAWN);
    assert(square_key(z, a[from], from) == 0u64);
    assert(square_key(z, b[to], to) == 0u64);
    assert(!is_enpassant_move(b, from, to));
    assert(is_promotion_move(b, from, to));
    lemma_xor_shared(key, square_key(z, b[from], from), square_key(z, a[to], to), 0u64);
}

/// The byte bits a promotion works on: a pawn's code turned by `^ 0b0110` and given the moved
/// bit is a queen's code, with the colour bit kept.
proof fn lemma_promoted_byte(x: u8)
    by (bit_vector)
    requires
        x & 7u8 == 2u8,
    ensures
        ((x ^ 0b0000_0110u8) | 0b1000_0000u8) & 7u8 == 4u8,
        ((x ^ 0b0000_0110u8) | 0b1000_0000u8) & 8u8 == x & 8u8,
{
}

/// A pawn reaching the first or the last row, by a straight move or by taking a piece, becomes
/// a queen of its own colour on the square it reaches, and leaves its square empty.
pub proof fn lemma_promotion_makes_queen(b: Seq<u8>, from: int, to: int)
    requires
        b.len() == 64,
        0 <= from < 64,
        0 <= to < 64,
        from != to,
        b[from] & 7u8 == 2,
        to < 8 || to > 55,
        b[to] & 7u8 != 0 || from % 8 == to % 8,
    ensures
        byte_piece(board_after(b, from, to)[to]) == PieceByte::QUEEN,
        byte_parity(board_after(b, from, to)[to]) == byte_parity(b[from]),
        board_after(b, from, to)[from] == 0,
{
    lemma_promoted_byte(b[from]);
    let after = board_after(b, from, to);
    assert(!is_enpassant_move(b, from, to));
    assert(is_promotion_move(b, from, to));
    assert(after[to] == ((b[from] ^ 0b0000_0110u8) | 0b1000_0000u8));
}

/// Turning the board over twice gives it back.
pub proof fn lemma_flipped_involution(b: Seq<u8>)
    requires
        b.len() == 64,
    ensures
        flipped_board(flipped_board(b)) == b,
{
    assert forall|s: int| 0 <= s < 64 implies flipped_board(flipped_board(b))[s] == b[s] by {
        let t = (7 - s / 8) * 8 + s % 8;
        assert(0 <= t < 64);
        assert((7 - t / 8) * 8 + t % 8 == s);
        let v = b[s];
        assert(flip_byte(flip_byte(v)) == v) by {
            assert(((v ^ 8u8) & 7u8) == (v & 7u8)) by (bit_vector);
            assert(((v ^ 8u8) ^ 8u8) == v) by (bit_vector);
        }
    }
    assert(flipped_board(flipped_board(b)) =~= b);
}

/// Operations on a board of 64 bytes.
pub trait BoardArray: Sized {
    /// The 64 bytes of the board.
    spec fn cells(&self) -> Seq<u8>;

    fn flipped(&self) -> Self;

    fn make_soft(&mut self, from: usize, to: usize) -> [u8; 64]
        requires
            move_in_range(old(self).cells(), from as int, to as int),
    ;

    fn make(
        &mut self,
        from: usize,
        to: usize,
        zobrist: &Zobrist,
        current_info: &mut RetainedStateInfo,
    ) -> ([u8; 64], RetainedStateInfo)
        requires
            make_ok(old(self).cells(), from as int, to as int),
    ;

    fn unmake(
        &mut self,
        saved_board: &[u8; 64],
        saved_info: &RetainedStateInfo,
        current_info: &mut RetainedStateInfo,
    );

    fn index_in_check(&self, index: usize, ip: Parity, info: &RetainedStateInfo) -> bool
        requires
            index < 64,
    ;

    fn get_motions(&self, maskset: &MaskSet, enpassant: &Mask, castles: Option<u8>) -> MotionSet;

    fn get_specific_motions(&self, ally_parity: Parity, maskset: &MaskSet, enpassant: &Mask) -> Mask;

    fn king_in_check(&self, king_index: usize, maskset: &MaskSet, enpassant: &Mask) -> bool
        requires
            king_index < 64,
    ;

    fn get_kings(&self) -> [usize; 2];

    fn all_are(&self, are: PieceByte) -> bool;

    fn any_are(&self, are: PieceByte) -> bool;

    fn any(&self) -> bool;

    fn bit_and(&self, other: &[u8; 64]) -> [u8; 64];

    fn bit_xor(&self, other: &[u8; 64]) -> [u8; 64];

    fn with_move(&self, from: Mask, to: Mask, enpassant: &Mask) -> Self
        requires
            moved_ok(self.cells(), index_of(from.raw), index_of(to.raw), enpassant.raw != 0 && enpassant.raw == to.raw, from.raw < to.raw),
    ;

    fn with_move_indexed(&self, from: usize, to: usize, enpassant: &Mask) -> Self
        requires
            from < 64,
            to < 64,
            moved_ok(self.cells(), from as int, to as int, enpassant.raw != 0 && index_of(enpassant.raw) == to, from < to),
    ;

    fn get_castles(&self, current_castle_byte: Option<u8>) -> u8;
}

impl BoardArray for [u8; 64] {
    open spec fn cells(&self) -> Seq<u8> {
        self@
    }

    fn get_kings(&self) -> (r: [usize; 2])
        ensures
            r@[0] == kings_of(self@).0,
            r@[1] == kings_of(self@).1,
    {
        let mut w: usize = 65;
        let mut b: usize = 65;
        let mut i: usize = 0;
        while i < 64
            invariant
                i <= 64,
                w == last_index(self@, |v: u8| byte_is_white_kind(v, 5), i as int),
                b == last_index(self@, |v: u8| byte_is_black_kind(v, 5), i as int),
            decreases 64 - i,
        {
            if self[i].is_w_king() {
                w = i;
            } else if self[i].is_b_king() {
                b = i;
            }
            i = i + 1;
        }
        [w, b]
    }

    fn index_in_check(&self, index: usize, ip: Parity, info: &RetainedStateInfo) -> (r: bool)
        ensures
            r == bit(attack_mask(self@, opposite(ip), info.maskset, info.enpassant_mask.raw), index as int),
    {
        let m = self.get_specific_motions(ip.not(), &info.maskset, &info.enpassant_mask);
        let r = Mask::from_index(index).and(m).any();
        proof {
            lemma_and_single(m.raw, index as int);
            let a = single(index as int);
            let c = m.raw;
            assert((a & c) == (c & a)) by (bit_vector);
        }
        r
    }

    fn king_in_check(&self, king_index: usize, maskset: &MaskSet, enpassant: &Mask) -> (r: bool)
        ensures
            r == bit(
                attack_mask(self@, opposite(byte_parity(self@[king_index as int])), *maskset, enpassant.raw),
                king_index as int,
            ),
    {
        let m = self.get_specific_motions(self[king_index].get_parity().not(), maskset, enpassant);
        let r = Mask::from_index(king_index).and(m).any();
        proof {
            lemma_and_single(m.raw, king_index as int);
            let a = single(king_index as int);
            let c = m.raw;
            assert((a & c) == (c & a)) by (bit_vector);
        }
        r
    }


    fn unmake(
        &mut self,
        saved_board: &[u8; 64],
        saved_info: &RetainedStateInfo,
        current_info: &mut RetainedStateInfo,
    )
        ensures
            final(self)@ == saved_board@,
            *final(current_info) == *saved_info,
    {
        *self = *saved_board;
        *current_info = RetainedStateInfo {
            maskset: MaskSet {
                all: saved_info.maskset.all,
                white: saved_info.maskset.white,
                black: saved_info.maskset.black,
            },
            king_indices: saved_info.king_indices,
            halfmove_clock: saved_info.halfmove_clock,
            fullmove_number: saved_info.fullmove_number,
            zkey: saved_info.zkey,
            allowed_castles: saved_info.allowed_castles,
            enpassant_mask: saved_info.enpassant_mask,
        };
    }

    fn make(
        &mut self,
        from: usize,
        to: usize,
        zobrist: &Zobrist,
        current_info: &mut RetainedStateInfo,
    ) -> (r: ([u8; 64], RetainedStateInfo))
        ensures
            r.0@ == old(self)@,
            r.1 == *old(current_info),
            final(self)@ == board_made(old(self)@, from as int, to as int),
            info_made(zobrist, old(self)@, from as int, to as int, *old(current_info), *final(current_info)),
    {
        let saved_info = *current_info;
        let saved_board = *self;
        if from == 65 && to == 65 {
            current_info.enpassant_mask = Mask { raw: 0 };
            return (saved_board, saved_info);
        }
        if !self[from].is_piece() {
            return (saved_board, saved_info);
        }
        current_info.enpassant_mask = Mask { raw: passant_after(self, from, to) };
        current_info.allowed_castles = castle_rights_after(self, from, to, current_info.allowed_castles);
        let (key, kings) = play_move(self, from, to, zobrist, current_info.zkey, current_info.king_indices);
        current_info.zkey = key;
        current_info.king_indices = kings;
        current_info.maskset = MaskSet::from_board(self);
        (saved_board, saved_info)
    }

    fn make_soft(&mut self, from: usize, to: usize) -> (r: [u8; 64])
        ensures
            r@ == old(self)@,
            final(self)@ == board_after(old(self)@, from as int, to as int),
    {
        let og = *self;
        let is_enpassant = self[from].is_pawn() && !self[to].is_piece() && from % 8 != to % 8;
        let is_promotion = self[from].is_pawn() && (to < 8 || to > 55);
        let is_castle = self[to].is_piece() && self[from].same_parity(&self[to]) && self[from].is_king()
            && self[to].is_rook();
        let is_take = self[to].is_piece() && !self[to].same_parity(&self[from]);
        if is_enpassant {
            if from > to {
                self[to + 8] = 0;
            } else {
                self[to - 8] = 0;
            }
            swap_squares(self, from, to);
            self[to] = self[to] | 0b1000_0000;
        } else if is_promotion {
            swap_squares(self, from, to);
            self[to] = self[to] ^ 0b0000_0110;
            self[to] = self[to] | 0b1000_0000;
            self[from] = 0;
        } else if is_castle {
            if from > to {
                swap_squares(self, from, from - 2);
                swap_squares(self, to, from - 1);
                self[from - 2] = self[from - 2] | 0b1000_0000;
                self[from - 1] = self[from - 1] | 0b1000_0000;
            } else {
                swap_squares(self, from, from + 2);
                swap_squares(self, to, from + 1);
                self[from + 2] = self[from + 2] | 0b1000_0000;
                self[from + 1] = self[from + 1] | 0b1000_0000;
            }
        } else if is_take {
            swap_squares(self, from, to);
            self[from] = 0;
            self[to] = self[to] | 0b1000_0000;
        } else {
            swap_squares(self, from, to);
            self[to] = self[to] | 0b1000_0000;
            self[from] = 0;
        }
        proof {
            assert(self@ =~= board_after(og@, from as int, to as int));
        }
        og
    }

    fn flipped(&self) -> (r: Self)
        ensures
            r@ == flipped_board(self@),
    {
        let mut array: [u8; 64] = [0u8; 64];
        let mut i: usize = 0;
        while i < 8
            invariant
                i <= 8,
                forall|s: int| 0 <= s < i * 8 ==> array@[s] == flipped_board(self@)[s],
            decreases 8 - i,
        {
            let mut k: usize = 0;
            while k < 8
                invariant
                    i < 8,
                    k <= 8,
                    forall|s: int| 0 <= s < i * 8 + k ==> array@[s] == flipped_board(self@)[s],
                decreases 8 - k,
            {
                let v = self[(7 - i) * 8 + k];
                array[i * 8 + k] = v;
                if array[i * 8 + k].is_piece() {
                    array[i * 8 + k] = array[i * 8 + k] ^ 0b0000_1000;
                }
                proof {
                    let s = (i * 8 + k) as int;
                    assert(s / 8 == i && s % 8 == k);
                }
                k = k + 1;
            }
            i = i + 1;
        }
        proof {
            assert(array@ =~= flipped_board(self@));
        }
        array
    }

    fn get_motions(&self, maskset: &MaskSet, enpassant: &Mask, castles: Option<u8>) -> (r: MotionSet)
        ensures
            motions_spec(&r, self@, *maskset, enpassant.raw, castles),
    {
        let (wking, bking) = find_kings(self);
        if wking == 65 || bking == 65 {
            return MotionSet::default();
        }
        let white = side_motions(self, maskset, enpassant, true, wking);
        let black = side_motions(self, maskset, enpassant, false, bking);
        let SideMotions {
            moves: white_moves,
            flat: white_flat,
            piecewise: white_piecewise_flat,
            defense: white_defensive_moves,
            defense_flat: white_defensive_flat,
            defense_piecewise: white_defensive_piecewise_flat,
            vect: white_vect,
        } = white;
        let SideMotions {
            moves: black_moves,
            flat: black_flat,
            piecewise: black_piecewise_flat,
            defense: black_defensive_moves,
            defense_flat: black_defensive_flat,
            defense_piecewise: black_defensive_piecewise_flat,
            vect: black_vect,
        } = black;
        let white_moves = with_castles(white_moves, self, maskset, enpassant, castles, true, wking);
        let black_moves = with_castles(black_moves, self, maskset, enpassant, castles, false, bking);
        let white_flat = Mask { raw: white_flat };
        let white_defensive_flat = Mask { raw: white_defensive_flat };
        let black_flat = Mask { raw: black_flat };
        let black_defensive_flat = Mask { raw: black_defensive_flat };
        MotionSet {
            white_moves,
            white_flat,
            white_piecewise_flat,
            white_defensive_moves,
            white_defensive_flat,
            white_defensive_piecewise_flat,
            white_vect,
            black_moves,
            black_flat,
            black_piecewise_flat,
            black_defensive_moves,
            black_defensive_flat,
            black_defensive_piecewise_flat,
            black_vect,
        }
    }

    fn get_specific_motions(&self, of_parity: Parity, maskset: &MaskSet, enpassant: &Mask) -> (r: Mask)
        ensures
            r.raw == attack_mask(self@, of_parity, *maskset, enpassant.raw),
    {
        let enemy: Mask = if of_parity == Parity::WHITE {
            maskset.black
        } else {
            maskset.white
        };
        let ghost e = enemy_of(*maskset, of_parity);
        let mut mask: u64 = 0;
        let mut index: usize = 0;
        while index < 64
            invariant
                index <= 64,
                enemy.raw == e,
                e == enemy_of(*maskset, of_parity),
                forall|s: int|
                    0 <= s < 64 ==> #[trigger] bit(mask, s) == exists|idx: int|
                        0 <= idx < index && byte_is_parity(self@[idx], of_parity) && bit(
                            #[trigger] piece_masks(self@[idx], idx, e, maskset.all.raw, of_parity, true, enpassant.raw).0,
                            s,
                        ),
            decreases 64 - index,
        {
            let byte = self[index];
            let ghost before = mask;
            if byte.is_parity(of_parity) {
                let m: u64 = match byte.get_piece() {
                    PieceByte::ROOK => rook_move(index, &enemy, &maskset.all).0.raw,
                    PieceByte::BISHOP => bishop_move(index, &enemy, &maskset.all).0.raw,
                    PieceByte::QUEEN => queen_move(index, &enemy, &maskset.all).0.raw,
                    PieceByte::PAWN => pawn_move(
                        index,
                        &enemy,
                        &maskset.all,
                        of_parity,
                        true,
                        enpassant,
                    ).0.raw,
                    PieceByte::KNIGHT => knight_move(index, &enemy, &maskset.all).0.raw,
                    PieceByte::KING => king_move(index, &enemy, &maskset.all).0.raw,
                    PieceByte::NONE => 0,
                };
                assert(m == piece_masks(byte, index as int, e, maskset.all.raw, of_parity, true, enpassant.raw).0);
                mask = mask | m;
            }
            proof {
                let pm = piece_masks(self@[index as int], index as int, e, maskset.all.raw, of_parity, true, enpassant.raw).0;
                assert forall|s: int| 0 <= s < 64 implies #[trigger] bit(mask, s) == exists|idx: int|
                    0 <= idx < index + 1 && byte_is_parity(self@[idx], of_parity) && bit(
                        #[trigger] piece_masks(self@[idx], idx, e, maskset.all.raw, of_parity, true, enpassant.raw).0,
                        s,
                    ) by {
                    if byte_is_parity(self@[index as int], of_parity) && bit(pm, s) {
                        assert(0 <= index < index + 1);
                    }
                }
            }
            index = index + 1;
        }
        proof {
            lemma_is_mask_of(mask, |s: int| attacks_square(self@, of_parity, *maskset, enpassant.raw, s));
        }
        Mask { raw: mask }
    }
    fn all_are(&self, are: PieceByte) -> (r: bool)
        ensures
            r == forall|i: int| 0 <= i < 64 ==> #[trigger] (self@[i] & 7u8) == piece_code(are),
    {
        let code = are.to_u8();
        let mut i: usize = 0;
        while i < 64
            invariant
                i <= 64,
                code == piece_code(are),
                forall|j: int| 0 <= j < i ==> #[trigger] (self@[j] & 7u8) == piece_code(are),
            decreases 64 - i,
        {
            let byte = self[i];
            if ((byte & 0b00000111) ^ code) != 0 {
                proof {
                    let a = byte & 7u8;
                    assert((a ^ code) != 0 ==> a != code) by (bit_vector);
                }
                return false;
            }
            proof {
                let a = byte & 7u8;
                assert((a ^ code) == 0 ==> a == code) by (bit_vector);
            }
            i = i + 1;
        }
        true
    }

    fn any_are(&self, are: PieceByte) -> (r: bool)
        ensures
            r == exists|i: int| 0 <= i < 64 && #[trigger] (self@[i] & 7u8) == piece_code(are),
    {
        let code = are.to_u8();
        let mut i: usize = 0;
        while i < 64
            invariant
                i <= 64,
                code == piece_code(are),
                forall|j: int| 0 <= j < i ==> !(#[trigger] (self@[j] & 7u8) == piece_code(are)),
            decreases 64 - i,
        {
            let byte = self[i];
            proof {
                let a = byte & 7u8;
                assert(((a ^ code) == 0) == (a == code)) by (bit_vector);
            }
            if ((byte & 0b00000111) ^ code) == 0 {
                return true;
            }
            i = i + 1;
        }
        false
    }

    fn any(&self) -> (r: bool)
        ensures
            r == exists|i: int| 0 <= i < 64 && #[trigger] self@[i] != 0,
    {
        let mut i: usize = 0;
        while i < 64
            invariant
                i <= 64,
                forall|j: int| 0 <= j < i ==> #[trigger] self@[j] == 0,
            decreases 64 - i,
        {
            if self[i] != 0 {
                return true;
            }
            i = i + 1;
        }
        false
    }

    fn bit_and(&self, other: &[u8; 64]) -> (r: [u8; 64])
        ensures
            forall|i: int| 0 <= i < 64 ==> #[trigger] r@[i] == self@[i] & other@[i],
    {
        let mut array = [0b00000000u8; 64];
        let mut i: usize = 0;
        while i < 64
            invariant
                i <= 64,
                forall|j: int| 0 <= j < i ==> #[trigger] array@[j] == self@[j] & other@[j],
            decreases 64 - i,
        {
            array[i] = self[i] & other[i];
            i = i + 1;
        }
        array
    }

    fn bit_xor(&self, other: &[u8; 64]) -> (r: [u8; 64])
        ensures
            forall|i: int| 0 <= i < 64 ==> #[trigger] r@[i] == self@[i] ^ other@[i],
    {
        let mut array = [0b00000000u8; 64];
        let mut i: usize = 0;
        while i < 64
            invariant
                i <= 64,
                forall|j: int| 0 <= j < i ==> #[trigger] array@[j] == self@[j] ^ other@[j],
            decreases 64 - i,
        {
            array[i] = self[i] ^ other[i];
            i = i + 1;
        }
        array
    }

    fn with_move(&self, from: Mask, to: Mask, enpassant: &Mask) -> (r: Self)
        ensures
            r@ == moved_board(
                self@,
                index_of(from.raw),
                index_of(to.raw),
                enpassant.raw != 0 && enpassant.raw == to.raw,
                from.raw < to.raw,
            ),
    {
        let mut array = *self;
        let f = from.as_index();
        let t = to.as_index();
        array[t] = array[f] | 0b10000000;
        let cur = array[f];
        array[f] = cur ^ cur;
        proof {
            assert(cur ^ cur == 0) by (bit_vector);
        }
        if enpassant.any() && enpassant.raw == to.raw {
            if from.raw < to.raw {
                array[t - 8] = 0u8;
            } else {
                array[t + 8] = 0u8;
            }
        }
        proof {
            assert(array@ =~= moved_board(
                self@,
                index_of(from.raw),
                index_of(to.raw),
                enpassant.raw != 0 && enpassant.raw == to.raw,
                from.raw < to.raw,
            ));
        }
        array
    }

    fn with_move_indexed(&self, from: usize, to: usize, enpassant: &Mask) -> (r: Self)
        ensures
            r@ == moved_board(
                self@,
                from as int,
                to as int,
                enpassant.raw != 0 && index_of(enpassant.raw) == to,
                from < to,
            ),
    {
        let mut array = *self;
        array[to] = array[from] | 0b10000000;
        let cur = array[from];
        array[from] = cur ^ cur;
        proof {
            assert(cur ^ cur == 0) by (bit_vector);
        }
        if enpassant.any() {
            let ei = enpassant.as_index();
            if ei == to {
                if from < to {
                    array[to - 8] = 0u8;
                } else {
                    array[to + 8] = 0u8;
                }
            }
        }
        proof {
            assert(array@ =~= moved_board(
                self@,
                from as int,
                to as int,
                enpassant.raw != 0 && index_of(enpassant.raw) == to,
                from < to,
            ));
        }
        array
    }

    fn get_castles(&self, current_castle_byte: Option<u8>) -> (r: u8)
        ensures
            r == castles_read(self@, match current_castle_byte { Some(c) => c, None => 0b0000_1111u8 }, 64),
    {
        let ghost start: u8 = match current_castle_byte {
            Some(c) => c,
            None => 0b0000_1111u8,
        };
        let mut castle_byte = match current_castle_byte {
            Some(c) => c,
            None => 0b00001111u8,
        };
        let mut i: usize = 0;
        while i < 64
            invariant
                i <= 64,
                start == (match current_castle_byte {
                    Some(c) => c,
                    None => 0b0000_1111u8,
                }),
                castle_byte == castles_read(self@, start, i as int),
            decreases 64 - i,
        {
            if castle_byte == 0 {
                proof {
                    lemma_castles_read_zero(self@, start, i as int, 64);
                }
                return castle_byte;
            }
            let byte = self[i];
            if byte.has_moved() {
                if byte.get_piece() == PieceByte::KING {
                    castle_byte = castle_byte & if byte.get_parity() == Parity::WHITE {
                        0b00001100u8
                    } else {
                        0b00000011u8
                    };
                } else if byte.get_piece() == PieceByte::ROOK {
                    if byte.get_parity() == Parity::WHITE {
                        if (castle_byte & 0b00000001) != 0 && byte.is_kingside() {
                            castle_byte = castle_byte & 0b11111110;
                        }
                        if (castle_byte & 0b00000010) != 0 && byte.is_queenside() {
                            castle_byte = castle_byte & 0b11111101;
                        }
                    } else {
                        if (castle_byte & 0b00000100) != 0 && byte.is_kingside() {
                            castle_byte = castle_byte & 0b11111011;
                        }
                        if (castle_byte & 0b00001000) != 0 && byte.is_queenside() {
                            castle_byte = castle_byte & 0b11110111;
                        }
                    }
                }
            }
            i = i + 1;
        }
        castle_byte
    }
}

} // verus!
