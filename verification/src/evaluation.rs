use vstd::prelude::*;
use crate::bits::{bit, mask_of, lemma_is_mask_of};
use crate::boardarray::{BoardArray, flipped_board, kings_of};
use crate::chessbyte::{ChessByte, byte_is_white_kind, byte_is_black_kind};
use crate::evaluator::{Evaluator, tempo, terms_sum, halfmove_factor, div_toward_zero, same_evaluation};
use crate::imbalance::{piece_imbalance, bishop_pair, imbalance_of, imbalance_defined, white_count};
use crate::legal::motions_spec;
use crate::mask::flip_square;
use crate::maskset::{MaskSet, maskset_of};
use crate::material::{midgame_material, midgame_weighted_position, material_of, mg_position_of, MIDGAME_PRICE, sum_squares};
use crate::mobility::{bonus, mobility_bonus, mobility_of, mobility_single_of, square_bonus, counts_square};
use crate::motion::MotionSet;
use crate::pawn::{midgame_pawn, pawn_structure, pawn_structure_defined};
use crate::pieces::{midgame_pieces, pieces_value, piece_square_value};
use crate::piece::{Parity, PieceByte};
use crate::state::{State, swapped_castles};
use crate::threats::{threats, threats_value, piecewise_raw, safe_pawn_count, safe_pawn_total, restricted_count, king_threat_count};
use crate::passed::{passed, passed_total, passed_defined};
use crate::zobrist::{CachedPosition, saved};

verus! {

// The evaluation of a position: terms for white on the board as it stands and for black on the
// board seen from the other side, cached with the position.

/// Whether an integer fits in an `i32`.
pub open spec fn fits(v: int) -> bool {
    i32::MIN <= v <= i32::MAX
}

/// The en-passant square seen from the other side.
pub open spec fn flipped_raw(raw: u64) -> u64 {
    mask_of(|j: int| bit(raw, flip_square(j)))
}

/// Whether `fm` is the move set of the position of `st` seen from the other side.
pub open spec fn flipped_motions(st: &State, fm: &MotionSet) -> bool {
    let f = flipped_board(st.board@);
    motions_spec(
        fm,
        f,
        maskset_of(f),
        flipped_raw(st.info.enpassant_mask.raw),
        Some(swapped_castles(st.info.allowed_castles)),
    )
}

/// The bishop-pair bonus of white on a board.
pub open spec fn bishop_bonus(b: Seq<u8>) -> int {
    if white_count(b, PieceByte::BISHOP) < 2 {
        0
    } else {
        1438
    }
}

/// The terms of the evaluation of `st`, each as name, white score and black score; `fm` is the
/// move set of the position seen from the other side.
pub open spec fn eval_terms(st: &State, fm: &MotionSet) -> Seq<(Seq<char>, int, int)> {
    let b = st.board@;
    let f = flipped_board(b);
    seq![
        ("Material"@, material_of(b, MIDGAME_PRICE@, true), -material_of(f, MIDGAME_PRICE@, true)),
        ("Weights"@, mg_position_of(b), -mg_position_of(f)),
        ("PImbalance"@, div_toward_zero(imbalance_of(b), 16), -div_toward_zero(imbalance_of(f), 16)),
        ("BImbalance"@, div_toward_zero(bishop_bonus(b), 16), -div_toward_zero(bishop_bonus(f), 16)),
        ("Pawn"@, pawn_structure(b), -pawn_structure(f)),
        (
            "Pieces"@,
            pieces_value(b, st.info.allowed_castles, &st.moves),
            -pieces_value(f, swapped_castles(st.info.allowed_castles), fm),
        ),
        ("Mobility"@, mobility_bonus(b, &st.moves), -mobility_bonus(f, fm)),
        (
            "Threats"@,
            threats_value(b, &st.moves, st.info.maskset, st.info.king_indices@[0] as int),
            -threats_value(f, fm, maskset_of(f), kings_of(f).0 as int),
        ),
        ("Passed"@, passed_total(b, &st.moves, st.info.maskset), -passed_total(f, fm, maskset_of(f))),
        if st.turn == Parity::WHITE {
            ("Tempo"@, 28int, 0int)
        } else {
            ("Tempo"@, 0int, -28int)
        },
    ]
}

/// The sum of both scores of the first `n` terms.
pub open spec fn terms_total(t: Seq<(Seq<char>, int, int)>, n: int) -> int
    decreases n,
{
    if n <= 0 {
        0
    } else {
        terms_total(t, n - 1) + t[n - 1].1 + t[n - 1].2
    }
}

/// Whether the evaluation holds the given terms, in order.
pub open spec fn holds_terms(e: &Evaluator, t: Seq<(Seq<char>, int, int)>) -> bool {
    &&& e.scores@.len() == t.len()
    &&& forall|i: int|
        0 <= i < t.len() ==> (#[trigger] e.scores@[i]).name@ == t[i].0 && e.scores@[i].white_score
            == t[i].1 && e.scores@[i].black_score == t[i].2
}

/// Whether an evaluation of the position is cached under its key.
pub open spec fn has_cached_evaluation(st: &State) -> bool {
    st.zobrist.cache_keys().contains(st.info.zkey) && st.zobrist.cached(st.info.zkey).evaluation is Some
}

/// Whether the king squares of the retained state hold a white and a black king.
pub open spec fn kings_in_place(st: &State) -> bool {
    &&& byte_is_white_kind(st.board@[st.info.king_indices@[0] as int], 5)
    &&& byte_is_black_kind(st.board@[st.info.king_indices@[1] as int], 5)
}

/// The positions whose terms `start_eval` computes without reading off the board and whose
/// total it scales without overflow.
pub open spec fn evaluable(st: &State) -> bool {
    let b = st.board@;
    let f = flipped_board(b);
    &&& pawn_structure_defined(b)
    &&& pawn_structure_defined(f)
    &&& imbalance_defined(b)
    &&& imbalance_defined(f)
    &&& passed_defined(b, st.info.maskset)
    &&& passed_defined(f, maskset_of(f))
    &&& kings_of(f).0 < 64
    &&& fits(100 - (st.info.halfmove_clock as i32) as int)
    &&& forall|fm: MotionSet|
        #[trigger] flipped_motions(st, &fm) ==> fits(
            terms_total(eval_terms(st, &fm), 10) * halfmove_factor(st.info.halfmove_clock),
        )
}

/// Rust's `/ 16` on an `i32`.
fn div16(x: i32) -> (r: i32)
    ensures
        r == div_toward_zero(x as int, 16),
{
    if x >= 0 {
        x / 16
    } else {
        let q: i64 = (-(x as i64)) / 16;
        -(q as i32)
    }
}

/// The bishop-pair bonus of white.
fn bishop_pair_term(board: &[u8; 64]) -> (r: i32)
    ensures
        r == div_toward_zero(bishop_bonus(board@), 16),
        0 <= r <= 89,
{
    let v = bishop_pair(board);
    div16(v)
}

/// Sums of the terms of an evaluation agree with sums of the terms it holds.
proof fn lemma_totals_agree(e: &Evaluator, t: Seq<(Seq<char>, int, int)>, n: int)
    requires
        holds_terms(e, t),
        0 <= n <= t.len(),
    ensures
        terms_sum(e.scores@, n) == terms_total(t, n),
    decreases n,
{
    if n > 0 {
        lemma_totals_agree(e, t, n - 1);
        assert(e.scores@[n - 1].white_score == t[n - 1].1);
    }
}

/// Whether every score of the evaluation lies within a million of zero.
pub open spec fn scores_bounded(e: &Evaluator) -> bool {
    forall|i: int|
        0 <= i < e.scores@.len() ==> -50_000_000 <= (#[trigger] e.scores@[i]).white_score <= 50_000_000
            && -50_000_000 <= e.scores@[i].black_score <= 50_000_000
}

/// The partial sums of bounded scores stay within two million per term.
proof fn lemma_sums_bounded(e: &Evaluator, n: int)
    requires
        scores_bounded(e),
        0 <= n <= e.scores@.len(),
    ensures
        -100_000_000 * n <= terms_sum(e.scores@, n) <= 100_000_000 * n,
    decreases n,
{
    if n > 0 {
        lemma_sums_bounded(e, n - 1);
        assert(-50_000_000 <= e.scores@[n - 1].white_score <= 50_000_000);
    }
}

/// The terms of the evaluation of `st`: white's on its board and black's on `flipped`, the
/// board seen from the other side with castling rights `flipped_castles` and moves `fmoves`.
fn push_terms(
    st: &State,
    flipped: &[u8; 64],
    flipped_castles: u8,
    flipped_maskset: &MaskSet,
    flipped_king: usize,
    fmoves: &MotionSet,
) -> (e: Evaluator)
    requires
        flipped@ == flipped_board(st.board@),
        *flipped_maskset == maskset_of(flipped@),
        flipped_king == kings_of(flipped@).0,
        flipped_king < 64,
        st.info.king_indices@[0] < 64,
        passed_defined(st.board@, st.info.maskset),
        passed_defined(flipped@, *flipped_maskset),
        flipped_castles == swapped_castles(st.info.allowed_castles),
        pawn_structure_defined(st.board@),
        pawn_structure_defined(flipped@),
        imbalance_defined(st.board@),
        imbalance_defined(flipped@),
    ensures
        e.eval == 0,
        holds_terms(&e, eval_terms(st, fmoves)),
        scores_bounded(&e),
{
    let mut evaluator = Evaluator { eval: 0, scores: Vec::new() };
    let board = &st.board;
    let material_w = midgame_material(board);
    let material_b = midgame_material(flipped);
    evaluator.push("Material", material_w, -material_b);
    let weights_w = midgame_weighted_position(board);
    let weights_b = midgame_weighted_position(flipped);
    evaluator.push("Weights", weights_w, -weights_b);
    let imbalance_w = div16(piece_imbalance(board));
    let imbalance_b = div16(piece_imbalance(flipped));
    evaluator.push("PImbalance", imbalance_w, -imbalance_b);
    let pair_w = bishop_pair_term(board);
    let pair_b = bishop_pair_term(flipped);
    evaluator.push("BImbalance", pair_w, -pair_b);
    let pawn_w = midgame_pawn(board);
    let pawn_b = midgame_pawn(flipped);
    evaluator.push("Pawn", pawn_w, -pawn_b);
    let pieces_w = midgame_pieces(board, st.info.allowed_castles, &st.moves);
    let pieces_b = midgame_pieces(flipped, flipped_castles, fmoves);
    evaluator.push("Pieces", pieces_w, -pieces_b);
    let mobility_w = bonus(board, &st.moves);
    let mobility_b = bonus(flipped, fmoves);
    evaluator.push("Mobility", mobility_w, -mobility_b);
    let threats_w = threats(board, &st.moves, &st.info.maskset, st.info.king_indices[0]);
    let threats_b = threats(flipped, fmoves, flipped_maskset, flipped_king);
    evaluator.push("Threats", threats_w, -threats_b);
    let passed_w = passed(board, &st.moves, &st.info.maskset);
    let passed_b = passed(flipped, fmoves, flipped_maskset);
    evaluator.push("Passed", passed_w, -passed_b);
    if st.turn == Parity::WHITE {
        evaluator.push("Tempo", tempo(st.turn), 0);
    } else {
        evaluator.push("Tempo", 0, tempo(st.turn));
    }
    proof {
        assert(holds_terms(&evaluator, eval_terms(st, fmoves)));
    }
    evaluator
}

/// The evaluation of the position: the one cached under its key when there is one; else, when
/// the king squares hold the kings, the terms of white on the board and of black on the board
/// seen from the other side (material, square weights, imbalance, bishop pair, pawn structure,
/// piece placement, mobility, threats, passed pawns) and the tempo of the side to move, summed and scaled by the
/// half-move factor, and cached with the position; otherwise `i32::MIN` with no terms.
pub fn start_eval(state: &mut State) -> (r: Evaluator)
    requires
        !has_cached_evaluation(old(state)) ==> old(state).info.king_indices@[0] < 64
            && old(state).info.king_indices@[1] < 64,
        !has_cached_evaluation(old(state)) && kings_in_place(old(state)) ==> evaluable(old(state)),
    ensures
        has_cached_evaluation(old(state)) ==> same_evaluation(
            &r,
            &old(state).zobrist.cached(old(state).info.zkey).evaluation->0,
        ) && *final(state) == *old(state),
        !has_cached_evaluation(old(state)) && !kings_in_place(old(state)) ==> r.eval == i32::MIN
            && r.scores@.len() == 0 && *final(state) == *old(state),
        !has_cached_evaluation(old(state)) && kings_in_place(old(state)) ==> {
            &&& exists|fm: MotionSet|
                #[trigger] flipped_motions(old(state), &fm) && holds_terms(&r, eval_terms(old(state), &fm))
                    && r.eval == terms_total(eval_terms(old(state), &fm), 10) * halfmove_factor(
                    old(state).info.halfmove_clock,
                )
            &&& *final(state) == (State { zobrist: final(state).zobrist, ..*old(state) })
            &&& saved(
                &old(state).zobrist,
                &final(state).zobrist,
                &CachedPosition { info: old(state).info, moves: old(state).moves, evaluation: Some(r) },
            )
        },
{
    let pulled = state.zobrist.pull(state.info.zkey);
    match pulled {
        Some(p) => {
            match p.evaluation {
                Some(e) => {
                    return e;
                },
                None => {},
            }
        },
        None => {},
    }
    let k0 = state.info.king_indices[0];
    let k1 = state.info.king_indices[1];
    if !(state.board[k0].is_w_king() && state.board[k1].is_b_king()) {
        return Evaluator { eval: i32::MIN, scores: Vec::new() };
    }
    let ghost st = *state;
    let flipped = state.partial_flipped();
    proof {
        lemma_is_mask_of(flipped.enpassant_mask.raw, |j: int| bit(st.info.enpassant_mask.raw, flip_square(j)));
    }
    let fmoves = flipped.board.get_motions(&flipped.maskset, &flipped.enpassant_mask, Some(flipped.allowed_castles));
    let mut evaluator = push_terms(
        state,
        &flipped.board,
        flipped.allowed_castles,
        &flipped.maskset,
        flipped.king_indices[0],
        &fmoves,
    );
    let ghost terms = eval_terms(&st, &fmoves);
    proof {
        assert(flipped_motions(&st, &fmoves));
        lemma_totals_agree(&evaluator, terms, 10);
        assert forall|k: int| 0 <= k <= evaluator.scores@.len() implies i32::MIN <= evaluator.eval + #[trigger] terms_sum(evaluator.scores@, k) <= i32::MAX by {
            lemma_sums_bounded(&evaluator, k);
        }
    }
    evaluator.finalize(state.info.halfmove_clock);
    let info = state.info;
    let moves = state.moves.copy();
    let kept = evaluator.copy();
    state.zobrist.save(CachedPosition { info, moves, evaluation: Some(kept) });
    evaluator
}


/// Sums over squares `0..n` of two functions that agree there are equal.
proof fn lemma_sums_agree(f: spec_fn(int) -> int, g: spec_fn(int) -> int, n: int)
    requires
        forall|i: int| 0 <= i < n ==> #[trigger] f(i) == g(i),
    ensures
        sum_squares(f, n) == sum_squares(g, n),
    decreases n,
{
    if n > 0 {
        lemma_sums_agree(f, g, n - 1);
    }
}

/// Two move sets of the position seen from the other side reach the same squares from every
/// square.
proof fn lemma_flipped_reach_unique(st: &State, fm1: &MotionSet, fm2: &MotionSet, i: int)
    requires
        flipped_motions(st, fm1),
        flipped_motions(st, fm2),
        0 <= i < 64,
    ensures
        fm1.white_piecewise_flat@[i].raw == fm2.white_piecewise_flat@[i].raw,
{
}

/// Two move sets of the position seen from the other side have the same masks.
proof fn lemma_flipped_masks_unique(st: &State, fm1: &MotionSet, fm2: &MotionSet)
    requires
        flipped_motions(st, fm1),
        flipped_motions(st, fm2),
    ensures
        fm1.white_flat.raw == fm2.white_flat.raw,
        fm1.black_flat.raw == fm2.black_flat.raw,
        fm1.white_defensive_flat.raw == fm2.white_defensive_flat.raw,
        fm1.black_defensive_flat.raw == fm2.black_defensive_flat.raw,
        piecewise_raw(fm1.white_piecewise_flat) == piecewise_raw(fm2.white_piecewise_flat),
        piecewise_raw(fm1.black_defensive_piecewise_flat) == piecewise_raw(fm2.black_defensive_piecewise_flat),
        forall|i: int| 0 <= i < 64 ==> #[trigger] fm1.white_piecewise_flat@[i].raw == fm2.white_piecewise_flat@[i].raw,
{
    assert(piecewise_raw(fm1.white_piecewise_flat) =~= piecewise_raw(fm2.white_piecewise_flat));
    assert(piecewise_raw(fm1.black_defensive_piecewise_flat) =~= piecewise_raw(fm2.black_defensive_piecewise_flat));
}

/// The move set of the position seen from the other side decides its terms: any two such move
/// sets give the same terms, so the evaluation `start_eval` states is a single one.
pub proof fn lemma_terms_unique(st: &State, fm1: &MotionSet, fm2: &MotionSet)
    requires
        flipped_motions(st, fm1),
        flipped_motions(st, fm2),
    ensures
        eval_terms(st, fm1) == eval_terms(st, fm2),
{
    let f = flipped_board(st.board@);
    let cs = swapped_castles(st.info.allowed_castles);
    assert forall|i: int| 0 <= i < 64 implies mobility_of(f, fm1, i) == mobility_of(f, fm2, i) by {
        lemma_flipped_reach_unique(st, fm1, fm2, i);
        assert((|s: int| if counts_square(f, fm1, i, s) { 1int } else { 0int }) =~= (|s: int| if counts_square(f, fm2, i, s) { 1int } else { 0int }));
    }
    assert forall|i: int| 0 <= i < 64 implies #[trigger] square_bonus(f, fm1, i) == square_bonus(f, fm2, i) by {
        assert(mobility_of(f, fm1, i) == mobility_of(f, fm2, i));
        assert(mobility_single_of(f, fm1, i) == mobility_single_of(f, fm2, i));
    }
    assert forall|i: int| 0 <= i < 64 implies #[trigger] piece_square_value(f, cs, fm1, i) == piece_square_value(f, cs, fm2, i) by {
        assert(mobility_of(f, fm1, i) == mobility_of(f, fm2, i));
    }
    lemma_sums_agree(|i: int| square_bonus(f, fm1, i), |i: int| square_bonus(f, fm2, i), 64);
    lemma_sums_agree(|i: int| piece_square_value(f, cs, fm1, i), |i: int| piece_square_value(f, cs, fm2, i), 64);
    lemma_flipped_masks_unique(st, fm1, fm2);
    let ms = maskset_of(f);
    lemma_sums_agree(|i: int| safe_pawn_count(f, fm1, ms, i), |i: int| safe_pawn_count(f, fm2, ms, i), 64);
    assert(safe_pawn_total(f, fm1, ms) == safe_pawn_total(f, fm2, ms));
    assert(restricted_count(fm1) == restricted_count(fm2));
    let k = kings_of(f).0 as int;
    if 0 <= k < 64 {
        assert(king_threat_count(fm1, ms, k) == king_threat_count(fm2, ms, k));
    }
    assert(threats_value(f, fm1, ms, k) == threats_value(f, fm2, ms, k));
    assert(passed_total(f, fm1, ms) == passed_total(f, fm2, ms));
    assert(eval_terms(st, fm1) =~= eval_terms(st, fm2));
}

} // verus!
