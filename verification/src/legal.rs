use vstd::prelude::*;
use crate::bits::{bit, single, group_bits, mask_of, lemma_is_mask_of, lemma_and_single, lemma_mask_of};
use crate::boardarray::{
    BoardArray, board_after, move_in_range, attack_mask, piece_masks, enemy_of,
};
use crate::chessbyte::{ChessByte, byte_is_white_kind, byte_is_black_kind, byte_is_parity, byte_parity, byte_is_white, byte_is_black, byte_piece};
use crate::mask::{Mask, squares, lemma_squares_upto, point_mask};
use crate::maskset::{MaskSet, maskset_of};
use crate::motion::{Motion, MotionSet, copy_list};
use crate::moves::{
    bishop_move, rook_move, queen_move, knight_move, king_move, pawn_move, ray_move_mask,
    ray_move_upto, ray_step_move, ray_square, king_adjacent, pawn_diagonal,
};
use crate::piece::{Parity, PieceByte};
use crate::point::on_board;

verus! {

broadcast use group_bits;

/// The scan for kings over squares `0..n` in order: each white (black) king seen is noted,
/// and the scan stops once both colours have been seen; 65 stands for "not seen".
pub open spec fn king_scan(b: Seq<u8>, n: int) -> (int, int)
    decreases n,
{
    if n <= 0 {
        (65, 65)
    } else {
        let prev = king_scan(b, n - 1);
        if prev.0 != 65 && prev.1 != 65 {
            prev
        } else if byte_is_white_kind(b[n - 1], 5) {
            (n - 1, prev.1)
        } else if byte_is_black_kind(b[n - 1], 5) {
            (prev.0, n - 1)
        } else {
            prev
        }
    }
}

/// The first square at or after `i` whose byte satisfies `p`; `dflt` when there is none.
pub open spec fn first_index(b: Seq<u8>, p: spec_fn(u8) -> bool, i: int, dflt: int) -> int
    decreases 64 - i,
{
    if i >= 64 {
        dflt
    } else if p(b[i]) {
        i
    } else {
        first_index(b, p, i + 1, dflt)
    }
}

/// The square of the first king of a colour on the board, `dflt` when there is none.
pub open spec fn first_king(b: Seq<u8>, white: bool, dflt: int) -> int {
    if white {
        first_index(b, |v: u8| byte_is_white_kind(v, 5), 0, dflt)
    } else {
        first_index(b, |v: u8| byte_is_black_kind(v, 5), 0, dflt)
    }
}

/// The side of a colour.
pub open spec fn side(white: bool) -> Parity {
    if white {
        Parity::WHITE
    } else {
        Parity::BLACK
    }
}

/// The other side of a colour.
pub open spec fn other_side(white: bool) -> Parity {
    if white {
        Parity::BLACK
    } else {
        Parity::WHITE
    }
}

/// Whether a move of the given colour fits on the board and, once made, leaves the first king
/// of that colour (or square `king` when there is none) out of reach of the other side.
pub open spec fn keeps_king_safe(b: Seq<u8>, m: Motion, white: bool, king: int) -> bool {
    let nb = board_after(b, m.from as int, m.to as int);
    &&& move_in_range(b, m.from as int, m.to as int)
    &&& !bit(attack_mask(nb, other_side(white), maskset_of(nb), 0u64), first_king(nb, white, king))
}

/// The moves and defended squares of the piece on `index`, for the side its byte belongs to.
pub open spec fn reach_masks(b: Seq<u8>, ms: MaskSet, ep: u64, index: int) -> (u64, u64) {
    let p = byte_parity(b[index]);
    piece_masks(b[index], index, enemy_of(ms, p), ms.all.raw, p, false, ep)
}

/// The moves from square `from` to each square of mask `m`, in increasing order.
pub open spec fn motions_to(from: int, m: u64) -> Seq<Motion> {
    squares(m).map_values(|s: int| Motion { from: from as usize, to: s as usize })
}

/// The moves of the piece on `index` that a colour may make: none unless the piece is of
/// that colour, else those of its moves that keep the king safe.
pub open spec fn legal_motions(b: Seq<u8>, ms: MaskSet, ep: u64, index: int, white: bool, king: int) -> Seq<Motion> {
    if byte_is_parity(b[index], side(white)) {
        motions_to(index, reach_masks(b, ms, ep, index).0).filter(
            |m: Motion| keeps_king_safe(b, m, white, king),
        )
    } else {
        Seq::empty()
    }
}

/// The squares the piece on `index` covers in defence, as moves, when it is of the colour.
pub open spec fn defense_motions(b: Seq<u8>, ms: MaskSet, ep: u64, index: int, white: bool) -> Seq<Motion> {
    if byte_is_parity(b[index], side(white)) {
        motions_to(index, reach_masks(b, ms, ep, index).1)
    } else {
        Seq::empty()
    }
}

/// The squares that the moves of a list reach.
pub open spec fn targets(l: Seq<Motion>) -> u64 {
    mask_of(|s: int| exists|k: int| 0 <= k < l.len() && l[k].to == s)
}

/// The squares reached by some move of the lists of squares `0..n`.
pub open spec fn union_targets(f: spec_fn(int) -> Seq<Motion>, n: int) -> u64 {
    mask_of(|s: int| exists|i: int| 0 <= i < n && #[trigger] bit(targets(f(i)), s))
}

/// The moves of a colour on every square, one list per square.
pub open spec fn legal_table(b: Seq<u8>, ms: MaskSet, ep: u64, white: bool, king: int) -> spec_fn(int) -> Seq<Motion> {
    |i: int| legal_motions(b, ms, ep, i, white, king)
}

/// The defended squares of a colour on every square, one list per square.
pub open spec fn defense_table(b: Seq<u8>, ms: MaskSet, ep: u64, white: bool) -> spec_fn(int) -> Seq<Motion> {
    |i: int| defense_motions(b, ms, ep, i, white)
}

/// Once both kings have been seen the scan stops.
proof fn lemma_king_scan_stops(b: Seq<u8>, i: int, n: int)
    requires
        0 <= i <= n,
        king_scan(b, i).0 != 65,
        king_scan(b, i).1 != 65,
    ensures
        king_scan(b, n) == king_scan(b, i),
    decreases n - i,
{
    if n > i {
        lemma_king_scan_stops(b, i, n - 1);
    }
}

/// A king square seen by the scan is a square of the board.
proof fn lemma_king_scan_range(b: Seq<u8>, n: int)
    requires
        0 <= n <= 64,
    ensures
        king_scan(b, n).0 == 65 || 0 <= king_scan(b, n).0 < 64,
        king_scan(b, n).1 == 65 || 0 <= king_scan(b, n).1 < 64,
    decreases n,
{
    if n > 0 {
        lemma_king_scan_range(b, n - 1);
    }
}

/// The squares of the kings, as the scan finds them.
pub(crate) fn find_kings(board: &[u8; 64]) -> (r: (usize, usize))
    ensures
        r.0 as int == king_scan(board@, 64).0,
        r.1 as int == king_scan(board@, 64).1,
        r.0 == 65 || r.0 < 64,
        r.1 == 65 || r.1 < 64,
{
    let mut w: usize = 65;
    let mut k: usize = 65;
    let mut i: usize = 0;
    while i < 64 && (w == 65 || k == 65)
        invariant
            i <= 64,
            w as int == king_scan(board@, i as int).0,
            k as int == king_scan(board@, i as int).1,
        decreases 64 - i,
    {
        if board[i].is_w_king() {
            w = i;
        } else if board[i].is_b_king() {
            k = i;
        }
        i = i + 1;
    }
    proof {
        if i < 64 {
            lemma_king_scan_stops(board@, i as int, 64);
        }
        lemma_king_scan_range(board@, 64);
    }
    (w, k)
}

/// The square of the first king of a colour, `dflt` when there is none.
fn first_king_square(board: &[u8; 64], white: bool, dflt: usize) -> (r: usize)
    ensures
        r as int == first_king(board@, white, dflt as int),
        r == dflt || r < 64,
{
    let mut i: usize = 0;
    while i < 64
        invariant
            i <= 64,
            first_king(board@, white, dflt as int) == (if white {
                first_index(board@, |v: u8| byte_is_white_kind(v, 5), i as int, dflt as int)
            } else {
                first_index(board@, |v: u8| byte_is_black_kind(v, 5), i as int, dflt as int)
            }),
        decreases 64 - i,
    {
        let found = if white {
            board[i].is_w_king()
        } else {
            board[i].is_b_king()
        };
        if found {
            return i;
        }
        i = i + 1;
    }
    dflt
}

/// Whether a move fits on the board.
pub(crate) fn move_fits(board: &[u8; 64], from: usize, to: usize) -> (r: bool)
    ensures
        r == move_in_range(board@, from as int, to as int),
{
    if from >= 64 || to >= 64 {
        return false;
    }
    let is_enpassant = board[from].is_pawn() && !board[to].is_piece() && from % 8 != to % 8;
    let is_promotion = board[from].is_pawn() && (to < 8 || to > 55);
    let is_castle = board[to].is_piece() && board[from].same_parity(&board[to]) && board[from].is_king()
        && board[to].is_rook();
    if is_enpassant {
        if from > to {
            to + 8 < 64
        } else {
            to >= 8
        }
    } else if !is_promotion && is_castle {
        if from > to {
            from >= 2
        } else {
            from + 2 < 64
        }
    } else {
        true
    }
}

/// Whether a move of a colour keeps that colour's king out of reach.
fn keeps_king_safe_exec(board: &[u8; 64], from: usize, to: usize, white: bool, king: usize) -> (r: bool)
    requires
        king < 64,
    ensures
        r == keeps_king_safe(board@, Motion { from, to }, white, king as int),
{
    if !move_fits(board, from, to) {
        return false;
    }
    let mut after: [u8; 64] = *board;
    after.make_soft(from, to);
    let other = if white {
        Parity::BLACK
    } else {
        Parity::WHITE
    };
    let reach = after.get_specific_motions(other, &MaskSet::from_board(&after), &Mask { raw: 0 });
    let k = first_king_square(&after, white, king);
    let hit = Mask::from_index(k).and(reach).any();
    proof {
        lemma_and_single(reach.raw, k as int);
        let a = single(k as int);
        let c = reach.raw;
        assert((a & c) == (c & a)) by (bit_vector);
    }
    !hit
}


/// The moves and defended squares of the piece on `index`.
fn reach_of(board: &[u8; 64], ms: &MaskSet, ep: &Mask, index: usize) -> (r: (u64, u64))
    requires
        index < 64,
    ensures
        r == reach_masks(board@, *ms, ep.raw, index as int),
{
    let byte = board[index];
    let p = byte.get_parity();
    let enemy: Mask = if p == Parity::WHITE {
        ms.black
    } else {
        ms.white
    };
    let m = match byte.get_piece() {
        PieceByte::ROOK => rook_move(index, &enemy, &ms.all),
        PieceByte::BISHOP => bishop_move(index, &enemy, &ms.all),
        PieceByte::QUEEN => queen_move(index, &enemy, &ms.all),
        PieceByte::PAWN => pawn_move(index, &enemy, &ms.all, p, false, ep),
        PieceByte::KNIGHT => knight_move(index, &enemy, &ms.all),
        PieceByte::KING => king_move(index, &enemy, &ms.all),
        PieceByte::NONE => (Mask { raw: 0 }, Mask { raw: 0 }),
    };
    (m.0.raw, m.1.raw)
}

/// The moves from `from` to the squares of a mask, in increasing order; when `filter_safe` is
/// set, only those that keep the king of the colour safe.
fn spread_motions(board: &[u8; 64], from: usize, m: u64, white: bool, king: usize, filter_safe: bool) -> (r: Vec<Motion>)
    requires
        from < 64,
        king < 64,
    ensures
        filter_safe ==> r@ == motions_to(from as int, m).filter(
            |mo: Motion| keeps_king_safe(board@, mo, white, king as int),
        ),
        !filter_safe ==> r@ == motions_to(from as int, m),
        forall|k: int| 0 <= k < r@.len() ==> (#[trigger] r@[k]).to < 64 && r@[k].from == from,
{
    let ghost pred = |mo: Motion| keeps_king_safe(board@, mo, white, king as int);
    let ghost all = motions_to(from as int, m);
    let bits = Mask { raw: m }.isolated_bits();
    let mut out: Vec<Motion> = Vec::new();
    let mut k: usize = 0;
    proof {
        lemma_squares_upto(m, 64);
    }
    while k < bits.len()
        invariant
            k <= bits@.len(),
            bits@.len() == squares(m).len(),
            all.len() == squares(m).len(),
            forall|j: int| 0 <= j < bits@.len() ==> (#[trigger] bits@[j]).raw == single(squares(m)[j]),
            forall|j: int| 0 <= j < squares(m).len() ==> 0 <= #[trigger] squares(m)[j] < 64,
            all == motions_to(from as int, m),
            from < 64,
            king < 64,
            filter_safe ==> out@ == all.take(k as int).filter(pred),
            !filter_safe ==> out@ == all.take(k as int),
            forall|j: int| 0 <= j < out@.len() ==> (#[trigger] out@[j]).to < 64 && out@[j].from == from,
            pred == (|mo: Motion| keeps_king_safe(board@, mo, white, king as int)),
        decreases bits@.len() - k,
    {
        let to = bits[k].as_index();
        proof {
            let s = squares(m)[k as int];
            crate::mask::lemma_index_roundtrip(s);
            assert(to == s);
            assert(all[k as int] == Motion { from, to });
            assert(all.take(k as int + 1) =~= all.take(k as int).push(all[k as int]));
            all.take(k as int).lemma_filter_push(all[k as int], pred);
        }
        if filter_safe {
            if keeps_king_safe_exec(board, from, to, white, king) {
                out.push(Motion { from, to });
            }
        } else {
            out.push(Motion { from, to });
        }
        k = k + 1;
    }
    proof {
        assert(all.take(k as int) =~= all);
    }
    out
}

/// The moves of the piece on `index` for a colour, and the squares it covers in defence.
fn square_motions(board: &[u8; 64], ms: &MaskSet, ep: &Mask, index: usize, white: bool, king: usize) -> (r: (Vec<Motion>, Vec<Motion>))
    requires
        index < 64,
        king < 64,
    ensures
        r.0@ == legal_motions(board@, *ms, ep.raw, index as int, white, king as int),
        r.1@ == defense_motions(board@, *ms, ep.raw, index as int, white),
        forall|k: int| 0 <= k < r.0@.len() ==> (#[trigger] r.0@[k]).to < 64,
        forall|k: int| 0 <= k < r.1@.len() ==> (#[trigger] r.1@[k]).to < 64,
{
    let p = if white {
        Parity::WHITE
    } else {
        Parity::BLACK
    };
    if !board[index].is_parity(p) {
        return (Vec::new(), Vec::new());
    }
    let m = reach_of(board, ms, ep, index);
    let moves = spread_motions(board, index, m.0, white, king, true);
    let defense = spread_motions(board, index, m.1, white, king, false);
    (moves, defense)
}


/// The squares that the moves of a list reach.
fn targets_of(l: &Vec<Motion>) -> (r: u64)
    requires
        forall|k: int| 0 <= k < l@.len() ==> (#[trigger] l@[k]).to < 64,
    ensures
        r == targets(l@),
{
    let mut m: u64 = 0;
    let mut k: usize = 0;
    while k < l.len()
        invariant
            k <= l@.len(),
            forall|j: int| 0 <= j < l@.len() ==> (#[trigger] l@[j]).to < 64,
            forall|s: int| 0 <= s < 64 ==> #[trigger] bit(m, s) == exists|j: int| 0 <= j < k && l@[j].to == s,
        decreases l@.len() - k,
    {
        let ghost before = m;
        let t = l[k].to;
        m = m | Mask::from_index(t).raw;
        proof {
            assert forall|s: int| 0 <= s < 64 implies #[trigger] bit(m, s) == exists|j: int| 0 <= j < k + 1 && l@[j].to == s by {
                if l@[k as int].to == s {
                    assert(0 <= k < k + 1 && l@[k as int].to == s);
                }
                if exists|j: int| 0 <= j < k + 1 && l@[j].to == s {
                    let j = choose|j: int| 0 <= j < k + 1 && l@[j].to == s;
                    if j < k {
                        assert(bit(before, s));
                    }
                }
            }
        }
        k = k + 1;
    }
    proof {
        lemma_is_mask_of(m, |s: int| exists|j: int| 0 <= j < l@.len() && l@[j].to == s);
    }
    m
}


/// The moves of one colour, square by square, with the masks derived from them.
pub(crate) struct SideMotions {
    pub(crate) moves: Vec<Vec<Motion>>,
    pub(crate) flat: u64,
    pub(crate) piecewise: [Mask; 64],
    pub(crate) defense: Vec<Vec<Motion>>,
    pub(crate) defense_flat: u64,
    pub(crate) defense_piecewise: [Mask; 64],
    pub(crate) vect: Vec<Motion>,
}

/// Whether a side's tables are those of the colour on the board.
pub(crate) open spec fn side_spec(sm: SideMotions, b: Seq<u8>, ms: MaskSet, ep: u64, white: bool, king: int) -> bool {
    let f = legal_table(b, ms, ep, white, king);
    let d = defense_table(b, ms, ep, white);
    &&& sm.moves@.len() == 64
    &&& sm.defense@.len() == 64
    &&& forall|i: int| 0 <= i < 64 ==> (#[trigger] sm.moves@[i])@ == f(i)
    &&& forall|i: int| 0 <= i < 64 ==> (#[trigger] sm.defense@[i])@ == d(i)
    &&& forall|i: int| 0 <= i < 64 ==> (#[trigger] sm.piecewise@[i]).raw == targets(f(i))
    &&& forall|i: int| 0 <= i < 64 ==> (#[trigger] sm.defense_piecewise@[i]).raw == targets(d(i))
    &&& sm.flat == union_targets(f, 64)
    &&& sm.defense_flat == union_targets(d, 64)
    &&& sm.vect@ == Seq::new(64, f).flatten()
}

/// Adding the squares of list `i` to the union of lists `0..i` gives the union of `0..i + 1`.
proof fn lemma_union_step(f: spec_fn(int) -> Seq<Motion>, before: u64, t: u64, i: int)
    requires
        0 <= i,
        t == targets(f(i)),
        forall|s: int| 0 <= s < 64 ==> #[trigger] bit(before, s) == exists|j: int| 0 <= j < i && #[trigger] bit(targets(f(j)), s),
    ensures
        forall|s: int| 0 <= s < 64 ==> #[trigger] bit(before | t, s) == exists|j: int| 0 <= j < i + 1 && #[trigger] bit(targets(f(j)), s),
{
    assert forall|s: int| 0 <= s < 64 implies #[trigger] bit(before | t, s) == exists|j: int| 0 <= j < i + 1 && #[trigger] bit(targets(f(j)), s) by {
        if bit(t, s) {
            assert(0 <= i < i + 1 && bit(targets(f(i)), s));
        }
        if exists|j: int| 0 <= j < i + 1 && #[trigger] bit(targets(f(j)), s) {
            let j = choose|j: int| 0 <= j < i + 1 && #[trigger] bit(targets(f(j)), s);
            if j < i {
                assert(bit(before, s));
            }
        }
    }
}

/// The moves of one colour on every square.
pub(crate) fn side_motions(board: &[u8; 64], ms: &MaskSet, ep: &Mask, white: bool, king: usize) -> (r: SideMotions)
    requires
        king < 64,
    ensures
        side_spec(r, board@, *ms, ep.raw, white, king as int),
{
    let ghost f = legal_table(board@, *ms, ep.raw, white, king as int);
    let ghost d = defense_table(board@, *ms, ep.raw, white);
    let mut moves: Vec<Vec<Motion>> = Vec::new();
    let mut defense: Vec<Vec<Motion>> = Vec::new();
    let mut flat: u64 = 0;
    let mut defense_flat: u64 = 0;
    let mut piecewise: [Mask; 64] = [Mask { raw: 0 }; 64];
    let mut defense_piecewise: [Mask; 64] = [Mask { raw: 0 }; 64];
    let mut vect: Vec<Motion> = Vec::new();
    let mut i: usize = 0;
    while i < 64
        invariant
            i <= 64,
            king < 64,
            f == legal_table(board@, *ms, ep.raw, white, king as int),
            d == defense_table(board@, *ms, ep.raw, white),
            moves@.len() == i,
            defense@.len() == i,
            forall|j: int| 0 <= j < i ==> (#[trigger] moves@[j])@ == f(j),
            forall|j: int| 0 <= j < i ==> (#[trigger] defense@[j])@ == d(j),
            forall|j: int| 0 <= j < i ==> (#[trigger] piecewise@[j]).raw == targets(f(j)),
            forall|j: int| 0 <= j < i ==> (#[trigger] defense_piecewise@[j]).raw == targets(d(j)),
            forall|s: int| 0 <= s < 64 ==> #[trigger] bit(flat, s) == exists|j: int| 0 <= j < i && #[trigger] bit(targets(f(j)), s),
            forall|s: int| 0 <= s < 64 ==> #[trigger] bit(defense_flat, s) == exists|j: int| 0 <= j < i && #[trigger] bit(targets(d(j)), s),
            vect@ == Seq::new(i as nat, f).flatten(),
        decreases 64 - i,
    {
        let (mv, df) = square_motions(board, ms, ep, i, white, king);
        let t = targets_of(&mv);
        let dt = targets_of(&df);
        proof {
            lemma_union_step(f, flat, t, i as int);
            lemma_union_step(d, defense_flat, dt, i as int);
            assert(Seq::new(i as nat + 1, f) =~= Seq::new(i as nat, f).push(f(i as int)));
            Seq::new(i as nat, f).lemma_flatten_push(f(i as int));
        }
        flat = flat | t;
        defense_flat = defense_flat | dt;
        piecewise[i] = Mask { raw: t };
        defense_piecewise[i] = Mask { raw: dt };
        let mut k: usize = 0;
        let ghost start = vect@;
        while k < mv.len()
            invariant
                k <= mv@.len(),
                vect@ == start + mv@.take(k as int),
            decreases mv@.len() - k,
        {
            vect.push(mv[k]);
            k = k + 1;
            proof {
                assert(vect@ =~= start + mv@.take(k as int));
            }
        }
        proof {
            assert(mv@.take(k as int) =~= mv@);
        }
        moves.push(mv);
        defense.push(df);
        i = i + 1;
    }
    proof {
        lemma_is_mask_of(flat, |s: int| exists|j: int| 0 <= j < 64 && #[trigger] bit(targets(f(j)), s));
        lemma_is_mask_of(defense_flat, |s: int| exists|j: int| 0 <= j < 64 && #[trigger] bit(targets(d(j)), s));
    }
    SideMotions { moves, flat, piecewise, defense, defense_flat, defense_piecewise, vect }
}


/// The castling moves of a colour's king on square `king` under castling rights `ac`: towards
/// each rook whose right remains (bits `0b0101` for the rook on the higher side, `0b1010` for
/// the lower side, after keeping the pair of the king's row), when the squares between are
/// empty and the king's square and the two it crosses are out of reach of the other side.
/// The move goes to the rook's corner. Note that a white king on its home square 60 keeps the
/// pair `0b0011`, the bits that reading a position gives to black's rights (`k` and `q`),
/// while any other square keeps `0b1100`, white's; the moves follow the rights as kept.
pub open spec fn castle_motions(b: Seq<u8>, ms: MaskSet, ep: u64, ac: u8, king: int, white: bool) -> Seq<Motion> {
    let pcast = ac & (if king == 60 { 0b0000_0011u8 } else { 0b0000_1100u8 });
    let shallow = attack_mask(b, other_side(white), ms, ep);
    let near = single(king + 1) | single(king + 2);
    let far = single(king - 1) | single(king - 2);
    let high = pcast & 0b0000_0101u8 != 0 && king + 2 < 64 && near & ms.all.raw == 0 && (near
        | single(king)) & shallow == 0;
    let low = pcast & 0b0000_1010u8 != 0 && king > 2 && (far | single(king - 3)) & ms.all.raw == 0
        && (far | single(king)) & shallow == 0;
    (if high {
        seq![Motion { from: king as usize, to: if white { 63usize } else { 7usize } }]
    } else {
        Seq::empty()
    }) + (if low {
        seq![Motion { from: king as usize, to: if white { 56usize } else { 0usize } }]
    } else {
        Seq::empty()
    })
}

/// The castling moves of a colour's king.
pub(crate) fn castle_moves(board: &[u8; 64], ms: &MaskSet, ep: &Mask, ac: u8, king: usize, white: bool) -> (r: Vec<Motion>)
    requires
        king < 64,
    ensures
        r@ == castle_motions(board@, *ms, ep.raw, ac, king as int, white),
{
    let mut out: Vec<Motion> = Vec::new();
    let pcast = ac & if king == 60 {
        0b0000_0011
    } else {
        0b0000_1100
    };
    let other = if white {
        Parity::BLACK
    } else {
        Parity::WHITE
    };
    let shallow = board.get_specific_motions(other, ms, ep);
    if pcast & 0b0000_0101 != 0 && king + 2 < 64 {
        let mask = Mask::from_index(king + 1).or(Mask::from_index(king + 2));
        if mask.and(ms.all).none() && mask.or(Mask::from_index(king)).and(shallow).none() {
            out.push(Motion {
                from: king,
                to: if white {
                    63
                } else {
                    7
                },
            });
        }
    }
    if pcast & 0b0000_1010 != 0 && king > 2 {
        let mask = Mask::from_index(king - 1).or(Mask::from_index(king - 2));
        if mask.or(Mask::from_index(king - 3)).and(ms.all).none() && mask.or(Mask::from_index(king)).and(
            shallow,
        ).none() {
            out.push(Motion {
                from: king,
                to: if white {
                    56
                } else {
                    0
                },
            });
        }
    }
    proof {
        assert(out@ =~= castle_motions(board@, *ms, ep.raw, ac, king as int, white));
    }
    out
}


/// The castling moves that join the moves of a colour's king on square `i`: when castling
/// rights are given, `i` is the king's square and the king has a move of its own.
pub open spec fn castle_extra(
    b: Seq<u8>,
    ms: MaskSet,
    ep: u64,
    castles: Option<u8>,
    white: bool,
    king: int,
    i: int,
) -> Seq<Motion> {
    match castles {
        Some(ac) => if i == king && legal_motions(b, ms, ep, king, white, king).len() > 0 {
            castle_motions(b, ms, ep, ac, king, white)
        } else {
            Seq::empty()
        },
        None => Seq::empty(),
    }
}

/// Whether a move set holds no move and no square.
pub open spec fn no_motions(r: &MotionSet) -> bool {
    &&& r.wf()
    &&& forall|i: int| 0 <= i < 64 ==> (#[trigger] r.white_moves@[i])@.len() == 0
    &&& forall|i: int| 0 <= i < 64 ==> (#[trigger] r.black_moves@[i])@.len() == 0
    &&& forall|i: int| 0 <= i < 64 ==> (#[trigger] r.white_defensive_moves@[i])@.len() == 0
    &&& forall|i: int| 0 <= i < 64 ==> (#[trigger] r.black_defensive_moves@[i])@.len() == 0
    &&& forall|i: int| 0 <= i < 64 ==> (#[trigger] r.white_piecewise_flat@[i]).raw == 0
    &&& forall|i: int| 0 <= i < 64 ==> (#[trigger] r.black_piecewise_flat@[i]).raw == 0
    &&& forall|i: int| 0 <= i < 64 ==> (#[trigger] r.white_defensive_piecewise_flat@[i]).raw == 0
    &&& forall|i: int| 0 <= i < 64 ==> (#[trigger] r.black_defensive_piecewise_flat@[i]).raw == 0
    &&& r.white_flat.raw == 0 && r.black_flat.raw == 0
    &&& r.white_defensive_flat.raw == 0 && r.black_defensive_flat.raw == 0
    &&& r.white_vect@.len() == 0 && r.black_vect@.len() == 0
}

/// The moves of one colour in a move set: per square the legal moves (with the king's
/// castling moves), the defended squares, the masks of their targets and the list of all
/// legal moves; castling moves count in neither the masks nor the list.
pub open spec fn side_matches(
    moves: Vec<Vec<Motion>>,
    flat: Mask,
    piecewise: [Mask; 64],
    defense: Vec<Vec<Motion>>,
    defense_flat: Mask,
    defense_piecewise: [Mask; 64],
    vect: Vec<Motion>,
    b: Seq<u8>,
    ms: MaskSet,
    ep: u64,
    castles: Option<u8>,
    white: bool,
    king: int,
) -> bool {
    let f = legal_table(b, ms, ep, white, king);
    let d = defense_table(b, ms, ep, white);
    &&& moves@.len() == 64
    &&& defense@.len() == 64
    &&& forall|i: int|
        0 <= i < 64 ==> (#[trigger] moves@[i])@ == f(i) + castle_extra(b, ms, ep, castles, white, king, i)
    &&& forall|i: int| 0 <= i < 64 ==> (#[trigger] defense@[i])@ == d(i)
    &&& forall|i: int| 0 <= i < 64 ==> (#[trigger] piecewise@[i]).raw == targets(f(i))
    &&& forall|i: int| 0 <= i < 64 ==> (#[trigger] defense_piecewise@[i]).raw == targets(d(i))
    &&& flat.raw == union_targets(f, 64)
    &&& defense_flat.raw == union_targets(d, 64)
    &&& vect@ == Seq::new(64, f).flatten()
}

/// What `get_motions` gives for a board: nothing unless both kings are on it; else for each
/// colour its moves against the king the scan found.
pub open spec fn motions_spec(r: &MotionSet, b: Seq<u8>, ms: MaskSet, ep: u64, castles: Option<u8>) -> bool {
    let kings = king_scan(b, 64);
    if kings.0 == 65 || kings.1 == 65 {
        no_motions(r)
    } else {
        &&& side_matches(
            r.white_moves,
            r.white_flat,
            r.white_piecewise_flat,
            r.white_defensive_moves,
            r.white_defensive_flat,
            r.white_defensive_piecewise_flat,
            r.white_vect,
            b,
            ms,
            ep,
            castles,
            true,
            kings.0,
        )
        &&& side_matches(
            r.black_moves,
            r.black_flat,
            r.black_piecewise_flat,
            r.black_defensive_moves,
            r.black_defensive_flat,
            r.black_defensive_piecewise_flat,
            r.black_vect,
            b,
            ms,
            ep,
            castles,
            false,
            kings.1,
        )
    }
}

/// A colour's tables with the king's castling moves added.
pub(crate) fn with_castles(
    moves: Vec<Vec<Motion>>,
    board: &[u8; 64],
    ms: &MaskSet,
    ep: &Mask,
    castles: Option<u8>,
    white: bool,
    king: usize,
) -> (r: Vec<Vec<Motion>>)
    requires
        king < 64,
        moves@.len() == 64,
        forall|i: int| 0 <= i < 64 ==> (#[trigger] moves@[i])@ == legal_motions(board@, *ms, ep.raw, i, white, king as int),
    ensures
        r@.len() == 64,
        forall|i: int|
            0 <= i < 64 ==> (#[trigger] r@[i])@ == legal_motions(board@, *ms, ep.raw, i, white, king as int)
                + castle_extra(board@, *ms, ep.raw, castles, white, king as int, i),
{
    let ghost f = legal_table(board@, *ms, ep.raw, white, king as int);
    let mut moves = moves;
    proof {
        assert forall|i: int| 0 <= i < 64 && i != king implies (#[trigger] moves@[i])@ == f(i)
            + castle_extra(board@, *ms, ep.raw, castles, white, king as int, i) by {
            assert(f(i) + Seq::<Motion>::empty() =~= f(i));
        }
    }
    match castles {
        Some(ac) => {
            if moves[king].len() > 0 {
                let adds = castle_moves(board, ms, ep, ac, king, white);
                let mut l = copy_list(&moves[king]);
                let mut k: usize = 0;
                let ghost start = l@;
                while k < adds.len()
                    invariant
                        k <= adds@.len(),
                        l@ == start + adds@.take(k as int),
                    decreases adds@.len() - k,
                {
                    l.push(adds[k]);
                    k = k + 1;
                    proof {
                        assert(l@ =~= start + adds@.take(k as int));
                    }
                }
                proof {
                    assert(adds@.take(k as int) =~= adds@);
                }
                moves.set(king, l);
            } else {
                proof {
                    assert(f(king as int) + Seq::<Motion>::empty() =~= f(king as int));
                }
            }
        },
        None => {
            proof {
                assert(f(king as int) + Seq::<Motion>::empty() =~= f(king as int));
            }
        },
    }
    moves
}

/// Every move listed for a colour on a square, castling aside, starts on that square, which
/// holds a piece of the colour, and leaves the colour's king out of reach of the other side.
pub proof fn lemma_listed_moves_keep_king_safe(
    b: Seq<u8>,
    ms: MaskSet,
    ep: u64,
    i: int,
    white: bool,
    king: int,
    k: int,
)
    requires
        0 <= i < 64,
        0 <= k < legal_motions(b, ms, ep, i, white, king).len(),
    ensures
        byte_is_parity(b[i], side(white)),
        legal_motions(b, ms, ep, i, white, king)[k].from == i,
        keeps_king_safe(b, legal_motions(b, ms, ep, i, white, king)[k], white, king),
{
    let all = motions_to(i, reach_masks(b, ms, ep, i).0);
    let pred = |m: Motion| keeps_king_safe(b, m, white, king);
    let l = all.filter(pred);
    assert(l == legal_motions(b, ms, ep, i, white, king));
    all.lemma_filter_pred(pred, k);
    all.lemma_filter_contains_rev(pred, l[k]);
    let j = choose|j: int| 0 <= j < all.len() && all[j] == l[k];
    lemma_squares_upto(reach_masks(b, ms, ep, i).0, 64);
    assert(0 <= squares(reach_masks(b, ms, ep, i).0)[j] < 64);
}


/// An item lies in a flattened sequence of sequences exactly when it lies in one of them.
proof fn lemma_flatten_has<A>(ss: Seq<Seq<A>>, x: A)
    ensures
        ss.flatten().contains(x) <==> exists|i: int, k: int|
            0 <= i < ss.len() && 0 <= k < ss[i].len() && #[trigger] ss[i][k] == x,
    decreases ss.len(),
{
    if ss.len() > 0 {
        lemma_flatten_has(ss.drop_first(), x);
        let whole = ss.first() + ss.drop_first().flatten();
        assert(ss.flatten() == whole);
        if whole.contains(x) {
            let j = choose|j: int| 0 <= j < whole.len() && whole[j] == x;
            if j < ss.first().len() {
                assert(ss[0][j] == x);
            } else {
                assert(ss.drop_first().flatten()[j - ss.first().len()] == x);
                assert(ss.drop_first().flatten().contains(x));
                let (i, k) = choose|i: int, k: int|
                    0 <= i < ss.drop_first().len() && 0 <= k < ss.drop_first()[i].len() && #[trigger] ss.drop_first()[i][k] == x;
                assert(ss[i + 1][k] == x);
            }
        }
        if exists|i: int, k: int| 0 <= i < ss.len() && 0 <= k < ss[i].len() && #[trigger] ss[i][k] == x {
            let (i, k) = choose|i: int, k: int| 0 <= i < ss.len() && 0 <= k < ss[i].len() && #[trigger] ss[i][k] == x;
            if i == 0 {
                assert(whole[k] == x);
            } else {
                assert(ss.drop_first()[i - 1][k] == x);
                let rest = ss.drop_first().flatten();
                assert(rest.contains(x));
                let j = choose|j: int| 0 <= j < rest.len() && rest[j] == x;
                assert(whole[j + ss.first().len()] == x);
            }
        }
    }
}

/// The whole list of moves of a colour in a move set.
pub open spec fn side_vect(r: &MotionSet, white: bool) -> Seq<Motion> {
    if white {
        r.white_vect@
    } else {
        r.black_vect@
    }
}

/// The target mask of a colour in a move set.
pub open spec fn side_flat(r: &MotionSet, white: bool) -> u64 {
    if white {
        r.white_flat.raw
    } else {
        r.black_flat.raw
    }
}

/// Whether a listed move of a colour starts on a piece of the colour and leaves the colour's
/// king (the one `get_motions` found) out of reach of the other side.
pub open spec fn listed_safe(b: Seq<u8>, m: Motion, white: bool) -> bool {
    let king = if white { king_scan(b, 64).0 } else { king_scan(b, 64).1 };
    &&& 0 <= m.from < 64
    &&& byte_is_parity(b[m.from as int], side(white))
    &&& keeps_king_safe(b, m, white, king)
}

/// The whole list of a colour's moves, as `get_motions` gives it: each move starts on a piece
/// of the colour and leaves the colour's king out of reach of the other side, and the
/// colour's target mask holds exactly the squares that some move of the list goes to.
pub proof fn lemma_whole_list_law(r: &MotionSet, b: Seq<u8>, ms: MaskSet, ep: u64, castles: Option<u8>, white: bool)
    requires
        motions_spec(r, b, ms, ep, castles),
    ensures
        forall|k: int| 0 <= k < side_vect(r, white).len() ==> listed_safe(b, #[trigger] side_vect(r, white)[k], white),
        forall|s: int|
            0 <= s < 64 ==> (bit(side_flat(r, white), s) <==> exists|k: int|
                0 <= k < side_vect(r, white).len() && #[trigger] side_vect(r, white)[k].to == s),
{
    let kings = king_scan(b, 64);
    let vect = side_vect(r, white);
    let flat = side_flat(r, white);
    if kings.0 == 65 || kings.1 == 65 {
        assert(vect.len() == 0);
        assert forall|s: int| 0 <= s < 64 implies !bit(flat, s) by {
            assert(flat == 0u64);
        }
        return;
    }
    let king = if white { kings.0 } else { kings.1 };
    let f = legal_table(b, ms, ep, white, king);
    let ss = Seq::new(64, f);
    assert(vect == ss.flatten());
    assert(flat == union_targets(f, 64));
    assert forall|k: int| 0 <= k < vect.len() implies listed_safe(b, #[trigger] vect[k], white) by {
        let m = vect[k];
        assert(ss.flatten().contains(m));
        lemma_flatten_has(ss, m);
        let (i, j) = choose|i: int, j: int| 0 <= i < ss.len() && 0 <= j < ss[i].len() && #[trigger] ss[i][j] == m;
        lemma_listed_moves_keep_king_safe(b, ms, ep, i, white, king, j);
    }
    lemma_mask_of(|s: int| exists|i: int| 0 <= i < 64 && #[trigger] bit(targets(f(i)), s));
    assert forall|s: int| 0 <= s < 64 implies (bit(flat, s) <==> exists|k: int|
        0 <= k < vect.len() && #[trigger] vect[k].to == s) by {
        if bit(flat, s) {
            let i = choose|i: int| 0 <= i < 64 && #[trigger] bit(targets(f(i)), s);
            let l = f(i);
            lemma_mask_of(|t: int| exists|k: int| 0 <= k < l.len() && l[k].to == t);
            let j = choose|j: int| 0 <= j < l.len() && l[j].to == s;
            lemma_flatten_has(ss, f(i)[j]);
            assert(ss[i][j] == f(i)[j]);
            let k = choose|k: int| 0 <= k < ss.flatten().len() && ss.flatten()[k] == f(i)[j];
            assert(vect[k].to == s);
        }
        if exists|k: int| 0 <= k < vect.len() && #[trigger] vect[k].to == s {
            let k = choose|k: int| 0 <= k < vect.len() && #[trigger] vect[k].to == s;
            assert(ss.flatten().contains(vect[k]));
            lemma_flatten_has(ss, vect[k]);
            let (i, j) = choose|i: int, j: int| 0 <= i < ss.len() && 0 <= j < ss[i].len() && #[trigger] ss[i][j] == vect[k];
            let l = f(i);
            lemma_mask_of(|t: int| exists|q: int| 0 <= q < l.len() && l[q].to == t);
            assert(l[j].to == s);
            assert(bit(targets(f(i)), s));
        }
    }
}

/// A square of a slider's ray of moves is empty or holds an enemy.
proof fn lemma_ray_lands(index: int, dx: int, dy: int, enemy: u64, pieces: u64, s: int)
    requires
        0 <= s < 64,
        bit(ray_move_mask(index, dx, dy, enemy, pieces), s),
    ensures
        !bit(pieces, s) || bit(enemy, s),
{
    lemma_mask_of(|t: int| ray_move_upto(index % 8, index / 8, dx, dy, enemy, pieces, t, 9));
    let d = choose|d: int|
        1 <= d < 9 && #[trigger] ray_square(index % 8, index / 8, dx, dy, d) == s && ray_step_move(
            index % 8,
            index / 8,
            dx,
            dy,
            d,
            enemy,
            pieces,
        );
}

/// A pawn's diagonal move lands on an enemy or on the empty en-passant square.
proof fn lemma_diagonal_lands(x: int, y: int, enemy: u64, pieces: u64, enpassant: u64, s: int)
    requires
        0 <= s < 64,
        bit(pawn_diagonal(x, y, enemy, pieces, false, enpassant).0, s),
    ensures
        !bit(pieces, s) || bit(enemy, s),
{
    broadcast use group_bits;

    if on_board(x, y) {
        let k = y * 8 + x;
        assert(point_mask(x, y) == single(k));
        assert(s == k);
        lemma_and_single(enemy, k);
        lemma_and_single(enpassant, k);
        if !bit(enemy, k) {
            assert(bit(enpassant, k));
            assert(bit(pieces & enpassant, k) == (bit(pieces, k) && bit(enpassant, k)));
        }
    }
}

/// A move of a piece, pawn diagonals counted only as captures, lands on an empty square or on
/// an enemy.
pub proof fn lemma_move_lands_on_empty_or_enemy(
    b: u8,
    index: int,
    enemy: u64,
    pieces: u64,
    parity: Parity,
    enpassant: u64,
    s: int,
)
    requires
        0 <= index < 64,
        0 <= s < 64,
        bit(piece_masks(b, index, enemy, pieces, parity, false, enpassant).0, s),
    ensures
        !bit(pieces, s) || bit(enemy, s),
{
    broadcast use group_bits;

    match byte_piece(b) {
        PieceByte::ROOK => {
            if bit(ray_move_mask(index, 0, 1, enemy, pieces), s) {
                lemma_ray_lands(index, 0, 1, enemy, pieces, s);
            } else if bit(ray_move_mask(index, 0, -1, enemy, pieces), s) {
                lemma_ray_lands(index, 0, -1, enemy, pieces, s);
            } else if bit(ray_move_mask(index, 1, 0, enemy, pieces), s) {
                lemma_ray_lands(index, 1, 0, enemy, pieces, s);
            } else {
                lemma_ray_lands(index, -1, 0, enemy, pieces, s);
            }
        },
        PieceByte::BISHOP => {
            if bit(ray_move_mask(index, -1, -1, enemy, pieces), s) {
                lemma_ray_lands(index, -1, -1, enemy, pieces, s);
            } else if bit(ray_move_mask(index, -1, 1, enemy, pieces), s) {
                lemma_ray_lands(index, -1, 1, enemy, pieces, s);
            } else if bit(ray_move_mask(index, 1, 1, enemy, pieces), s) {
                lemma_ray_lands(index, 1, 1, enemy, pieces, s);
            } else {
                lemma_ray_lands(index, 1, -1, enemy, pieces, s);
            }
        },
        PieceByte::QUEEN => {
            if bit(ray_move_mask(index, 0, 1, enemy, pieces), s) {
                lemma_ray_lands(index, 0, 1, enemy, pieces, s);
            } else if bit(ray_move_mask(index, 0, -1, enemy, pieces), s) {
                lemma_ray_lands(index, 0, -1, enemy, pieces, s);
            } else if bit(ray_move_mask(index, 1, 0, enemy, pieces), s) {
                lemma_ray_lands(index, 1, 0, enemy, pieces, s);
            } else if bit(ray_move_mask(index, -1, 0, enemy, pieces), s) {
                lemma_ray_lands(index, -1, 0, enemy, pieces, s);
            } else if bit(ray_move_mask(index, -1, -1, enemy, pieces), s) {
                lemma_ray_lands(index, -1, -1, enemy, pieces, s);
            } else if bit(ray_move_mask(index, -1, 1, enemy, pieces), s) {
                lemma_ray_lands(index, -1, 1, enemy, pieces, s);
            } else if bit(ray_move_mask(index, 1, 1, enemy, pieces), s) {
                lemma_ray_lands(index, 1, 1, enemy, pieces, s);
            } else {
                lemma_ray_lands(index, 1, -1, enemy, pieces, s);
            }
        },
        PieceByte::KNIGHT => {},
        PieceByte::KING => {
            lemma_mask_of(|t: int| king_adjacent(index, t) && (!bit(pieces, t) || bit(enemy, t)));
        },
        PieceByte::PAWN => {
            let x = index % 8;
            let y = index / 8;
            let pos = single(index);
            let basic: u64 = if parity == Parity::WHITE { pos >> 8u64 } else { pos << 8u64 };
            let dbl: u64 = if parity == Parity::WHITE { basic >> 8u64 } else { basic << 8u64 };
            let ydir: int = if basic > pos { 1 } else { -1 };
            let d1 = pawn_diagonal(x + 1, y + ydir, enemy, pieces, false, enpassant);
            let d2 = pawn_diagonal(x - 1, y + ydir, enemy, pieces, false, enpassant);
            if bit(d1.0, s) {
                lemma_diagonal_lands(x + 1, y + ydir, enemy, pieces, enpassant, s);
            } else if bit(d2.0, s) {
                lemma_diagonal_lands(x - 1, y + ydir, enemy, pieces, enpassant, s);
            } else {
                assert(pieces & basic == 0u64);
                assert(bit(pieces & basic, s) == (bit(pieces, s) && bit(basic, s)));
                if bit(dbl, s) {
                    assert(pieces & dbl == 0u64);
                    assert(bit(pieces & dbl, s) == (bit(pieces, s) && bit(dbl, s)));
                }
            }
        },
        PieceByte::NONE => {},
    }
}

/// No move that a colour may make lands on a piece of its own colour: every listed move (on a
/// board whose masks are those of the board) lands on an empty square or on an enemy piece.
pub proof fn lemma_listed_moves_never_take_own(
    b: Seq<u8>,
    ep: u64,
    i: int,
    white: bool,
    king: int,
    m: Motion,
)
    requires
        b.len() == 64,
        0 <= i < 64,
        legal_motions(b, maskset_of(b), ep, i, white, king).contains(m),
    ensures
        m.to < 64,
        if white {
            !byte_is_white(b[m.to as int])
        } else {
            !byte_is_black(b[m.to as int])
        },
{
    let ms = maskset_of(b);
    let reach = reach_masks(b, ms, ep, i).0;
    let all = motions_to(i, reach);
    let pred = |mm: Motion| keeps_king_safe(b, mm, white, king);
    all.lemma_filter_contains_rev(pred, m);
    let j = choose|j: int| 0 <= j < all.len() && all[j] == m;
    lemma_squares_upto(reach, 64);
    let s = squares(reach)[j];
    assert(0 <= s < 64 && bit(reach, s));
    assert(m.to == s as usize);
    let p = byte_parity(b[i]);
    lemma_move_lands_on_empty_or_enemy(b[i], i, enemy_of(ms, p), ms.all.raw, p, ep, s);
    lemma_mask_of(|t: int| byte_is_white(b[t]));
    lemma_mask_of(|t: int| byte_is_black(b[t]));
    lemma_mask_of(|t: int| byte_is_white(b[t]) || byte_is_black(b[t]));
}

} // verus!
