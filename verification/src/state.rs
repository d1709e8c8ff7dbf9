use vstd::prelude::*;
use std::collections::HashMap;
use crate::boardarray::{BoardArray, make_ok, flipped_board, kings_of, board_made, info_made};
use crate::chessbyte::{ChessByte};
use crate::legal::{motions_spec, no_motions};
use crate::mask::{Mask, flip_square, index_of};
use crate::maskset::{MaskSet, maskset_of};
use crate::motion::{Motion, MotionSet, same_motions};
use crate::piece::{Parity, opposite};
use crate::zobrist::{Zobrist, CachedPosition, same_cached, position_key};
use crate::bits::bit;

verus! {

broadcast use vstd::std_specs::hash::group_hash_axioms;

/// What a move changes besides the board, kept so that the move can be taken back.
#[derive(Clone, Copy, Debug)]
pub struct RetainedStateInfo {
    pub zkey: u64,
    pub allowed_castles: u8,
    pub enpassant_mask: Mask,
    pub king_indices: [usize; 2],
    pub maskset: MaskSet,
    pub halfmove_clock: u64,
    pub fullmove_number: u64,
}

impl Default for RetainedStateInfo {
    fn default() -> (r: RetainedStateInfo)
        ensures
            r.king_indices@ == seq![65usize, 65usize],
            r.enpassant_mask.raw == 0,
            r.allowed_castles == 0,
            r.zkey == 0,
            r.maskset.white.raw == 0 && r.maskset.black.raw == 0 && r.maskset.all.raw == 0,
            r.fullmove_number == 0,
            r.halfmove_clock == 0,
    {
        RetainedStateInfo {
            king_indices: [65usize; 2],
            enpassant_mask: Mask { raw: 0 },
            allowed_castles: 0u8,
            zkey: 0u64,
            maskset: MaskSet { white: Mask { raw: 0 }, black: Mask { raw: 0 }, all: Mask { raw: 0 } },
            fullmove_number: 0u64,
            halfmove_clock: 0u64,
        }
    }
}

/// A position seen from the other side: board, castling rights, en-passant square, masks and
/// king squares.
pub struct PartialState {
    pub board: [u8; 64],
    pub allowed_castles: u8,
    pub enpassant_mask: Mask,
    pub maskset: MaskSet,
    pub king_indices: [usize; 2],
}

/// The castling rights seen from the other side: the two pairs of bits change places.
pub open spec fn swapped_castles(ac: u8) -> u8 {
    ((ac & 0b0000_0011u8) << 2u8) | ((ac & 0b0000_1100u8) >> 2u8)
}

/// A game position: the board, whose turn it is, the retained state, the moves of the
/// position, a cache of moves by position key, the key tables with their cache of analysed
/// positions, and the boards and states that the moves made so far replaced.
pub struct State {
    pub board: [u8; 64],
    pub cached_moves: HashMap<u64, MotionSet>,
    pub moves: MotionSet,
    pub turn: Parity,
    pub zobrist: Zobrist,
    pub info: RetainedStateInfo,
    pub num_cached: usize,
    pub num_analyzed: usize,
    pub held_info: Vec<RetainedStateInfo>,
    pub held_boards: Vec<[u8; 64]>,
}

/// Whether `new` holds a position settled from `board` and `info`: its moves are those cached
/// under the position key in `cached` when there are some, else those generated for the board
/// with the state's castling rights, which then join the cache; and the key tables, with the
/// position recorded among the analysed ones.
pub open spec fn settled(
    new: &State,
    board: Seq<u8>,
    info: RetainedStateInfo,
    cached: Map<u64, MotionSet>,
    zob: Zobrist,
) -> bool {
    let key = info.zkey;
    &&& new.board@ == board
    &&& new.info == info
    &&& new.zobrist.same_keys(&zob)
    &&& if cached.contains_key(key) {
        &&& same_motions(&new.moves, &cached[key])
        &&& new.cached_moves@ == cached
    } else {
        &&& motions_spec(&new.moves, board, info.maskset, info.enpassant_mask.raw, Some(info.allowed_castles))
        &&& new.cached_moves@.dom() == cached.dom().insert(key)
        &&& same_motions(&new.cached_moves@[key], &new.moves)
        &&& forall|k: u64| k != key && #[trigger] cached.contains_key(k) ==> new.cached_moves@[k] == cached[k]
    }
    &&& new.zobrist.cache_keys() == zob.cache_keys().insert(key)
    &&& same_cached(&new.zobrist.cached(key), &CachedPosition { info, moves: new.moves, evaluation: None })
    &&& forall|k: u64| k != key && #[trigger] zob.cache_keys().contains(k) ==> new.zobrist.cached(k) == zob.cached(k)
}

/// Whether `new` is `old` after making the move `m`: the board and retained state as `make`
/// leaves them, the replaced board and state pushed on the history, the turn passed to the
/// other side, and the position settled.
pub open spec fn made_motion(old: &State, new: &State, m: Motion) -> bool {
    exists|info: RetainedStateInfo|
        #![trigger info_made(&old.zobrist, old.board@, m.from as int, m.to as int, old.info, info)]
        {
            &&& info_made(&old.zobrist, old.board@, m.from as int, m.to as int, old.info, info)
            &&& settled(
                new,
                board_made(old.board@, m.from as int, m.to as int),
                info,
                old.cached_moves@,
                old.zobrist,
            )
            &&& new.turn == opposite(old.turn)
            &&& new.history() == old.history().push((old.board@, old.info))
            &&& new.num_cached == old.num_cached
            &&& new.num_analyzed == old.num_analyzed
        }
}

/// Whether `new` is `old` after taking back the last move: the board and retained state
/// before it come back from the history, the turn passes back when `switch` is set, and the
/// moves come from the analysed positions when the key is among them, else the position is
/// settled again.
pub open spec fn unmade(old: &State, new: &State, switch: bool) -> bool {
    let last = old.history().last();
    &&& new.history() == old.history().drop_last()
    &&& new.turn == (if switch { opposite(old.turn) } else { old.turn })
    &&& new.num_cached == old.num_cached
    &&& new.num_analyzed == old.num_analyzed
    &&& if old.zobrist.cache_keys().contains(last.1.zkey) {
        &&& new.board@ == last.0
        &&& new.info == last.1
        &&& same_motions(&new.moves, &old.zobrist.cached(last.1.zkey).moves)
        &&& new.cached_moves@ == old.cached_moves@
        &&& new.zobrist.same_keys(&old.zobrist)
        &&& new.zobrist.cache_keys() == old.zobrist.cache_keys()
        &&& forall|k: u64| #[trigger] old.zobrist.cache_keys().contains(k) ==> new.zobrist.cached(k) == old.zobrist.cached(k)
    } else {
        settled(new, last.0, last.1, old.cached_moves@, old.zobrist)
    }
}

/// Whether `new` is the retained state that `init` sets up from `old`: the full position key,
/// the masks of the board, and for each colour the square of its last king on the board (the
/// old square when there is none); the rest is kept.
pub open spec fn initialised(z: &Zobrist, b: Seq<u8>, turn: Parity, old: RetainedStateInfo, new: RetainedStateInfo) -> bool {
    let kings = kings_of(b);
    &&& new.zkey == position_key(z, b, old.enpassant_mask.raw, turn, old.allowed_castles)
    &&& new.maskset == maskset_of(b)
    &&& new.king_indices@[0] == (if kings.0 != 65 { kings.0 as usize } else { old.king_indices@[0] })
    &&& new.king_indices@[1] == (if kings.1 != 65 { kings.1 as usize } else { old.king_indices@[1] })
    &&& new.allowed_castles == old.allowed_castles
    &&& new.enpassant_mask == old.enpassant_mask
    &&& new.halfmove_clock == old.halfmove_clock
    &&& new.fullmove_number == old.fullmove_number
}

/// Taking back a move just made, with the turn passed back, gives back the board, the
/// retained state, the side to move and the history of moves.
pub proof fn lemma_unmake_undoes_make(s0: &State, s1: &State, s2: &State, m: Motion)
    requires
        made_motion(s0, s1, m),
        unmade(s1, s2, true),
    ensures
        s2.board@ == s0.board@,
        s2.info == s0.info,
        s2.turn == s0.turn,
        s2.history() == s0.history(),
{
    assert(s1.history().last() == (s0.board@, s0.info));
    assert(s1.history().drop_last() =~= s0.history());
}

/// Swapping the castling rights of the two sides twice gives them back.
pub proof fn lemma_swapped_castles_involution(ac: u8)
    requires
        ac < 16,
    ensures
        swapped_castles(swapped_castles(ac)) == ac,
{
    assert(ac < 16 ==> ((((((ac & 3u8) << 2u8) | ((ac & 12u8) >> 2u8)) & 3u8) << 2u8) | (((((ac & 3u8) << 2u8) | ((ac & 12u8) >> 2u8)) & 12u8) >> 2u8)) == ac) by (bit_vector);
}

impl State {
    /// The boards and retained states replaced by the moves made so far, oldest first.
    pub open spec fn history(&self) -> Seq<(Seq<u8>, RetainedStateInfo)> {
        Seq::new(
            self.held_boards@.len(),
            |i: int| (self.held_boards@[i]@, self.held_info@[i]),
        )
    }

    /// Both history stacks have one entry per move made.
    pub open spec fn wf(&self) -> bool {
        self.held_boards@.len() == self.held_info@.len()
    }

    /// The byte on a square, 0 off the board.
    pub fn get_piece_at_index(&self, index: usize) -> (r: u8)
        ensures
            r == (if index < 64 { self.board@[index as int] } else { 0u8 }),
    {
        if index < 64 {
            self.board[index]
        } else {
            0u8
        }
    }

    /// The square of a side's king (white's for `WHITE`, black's for any other side).
    pub fn get_king(&self, parity: Parity) -> (r: usize)
        ensures
            r == self.info.king_indices@[if parity == Parity::WHITE { 0 } else { 1 }],
    {
        self.info.king_indices[if parity == Parity::WHITE {
            0
        } else {
            1
        }]
    }

    /// Make a move: play it on the board, keep what it replaced, pass the turn and settle the
    /// new position.
    pub fn make_motion(&mut self, motion: &Motion)
        requires
            old(self).wf(),
            make_ok(old(self).board@, motion.from as int, motion.to as int),
        ensures
            final(self).wf(),
            made_motion(old(self), final(self), *motion),
    {
        let held = self.board.make(motion.from, motion.to, &self.zobrist, &mut self.info);
        self.held_boards.push(held.0);
        self.held_info.push(held.1);
        self.turn = self.turn.not();
        proof {
            assert(self.history() =~= old(self).history().push((old(self).board@, old(self).info)));
        }
        self.hydrate();
    }

    /// Make the move from `from` to the first square of `to`.
    pub fn make_move(&mut self, from: usize, to: &Mask)
        requires
            old(self).wf(),
            make_ok(old(self).board@, from as int, index_of(to.raw)),
        ensures
            final(self).wf(),
            made_motion(old(self), final(self), Motion { from, to: index_of(to.raw) as usize }),
    {
        let t = to.as_index();
        let held = self.board.make(from, t, &self.zobrist, &mut self.info);
        let ghost info = self.info;
        self.held_boards.push(held.0);
        self.held_info.push(held.1);
        self.turn = self.turn.not();
        proof {
            assert(self.history() =~= old(self).history().push((old(self).board@, old(self).info)));
        }
        self.hydrate();
        proof {
            let m = Motion { from, to: index_of(to.raw) as usize };
            assert(m.to == t);
            assert(info_made(&old(self).zobrist, old(self).board@, m.from as int, m.to as int, old(self).info, info));
        }
    }

    /// Take back the last move made; the turn passes back when `do_turn_switch` is set.
    pub fn unmake_last(&mut self, do_turn_switch: bool)
        requires
            old(self).wf(),
            old(self).history().len() > 0,
        ensures
            final(self).wf(),
            unmade(old(self), final(self), do_turn_switch),
    {
        let argsinfo = self.held_info.pop().unwrap();
        let argsboard = self.held_boards.pop().unwrap();
        proof {
            assert(self.history() =~= old(self).history().drop_last());
        }
        if do_turn_switch {
            self.turn = self.turn.not();
        }
        self.board.unmake(&argsboard, &argsinfo, &mut self.info);
        let cached_option = self.zobrist.pull(self.info.zkey);
        match cached_option {
            Some(cached) => {
                self.moves = cached.moves;
            },
            None => {
                self.hydrate();
            },
        }
    }

    /// Keep a sorted list of the moves of the side to move (black's for any side but white),
    /// and cache the moves under the position key.
    pub fn set_sorted_motions(&mut self, sorted: Vec<Motion>)
        ensures
            final(self).turn == Parity::WHITE ==> final(self).moves.white_vect@ == sorted@,
            final(self).turn != Parity::WHITE ==> final(self).moves.black_vect@ == sorted@,
            final(self).turn == Parity::WHITE ==> final(self).moves == (MotionSet { white_vect: final(self).moves.white_vect, ..old(self).moves }),
            final(self).turn != Parity::WHITE ==> final(self).moves == (MotionSet { black_vect: final(self).moves.black_vect, ..old(self).moves }),
            final(self).cached_moves@.dom() == old(self).cached_moves@.dom().insert(old(self).info.zkey),
            same_motions(&final(self).cached_moves@[old(self).info.zkey], &final(self).moves),
            forall|k: u64| k != old(self).info.zkey && #[trigger] old(self).cached_moves@.contains_key(k) ==> final(self).cached_moves@[k] == old(self).cached_moves@[k],
            final(self).board == old(self).board,
            final(self).info == old(self).info,
            final(self).turn == old(self).turn,
            final(self).zobrist == old(self).zobrist,
            final(self).held_boards == old(self).held_boards,
            final(self).held_info == old(self).held_info,
            final(self).num_cached == old(self).num_cached,
            final(self).num_analyzed == old(self).num_analyzed,
    {
        if self.turn == Parity::WHITE {
            self.moves.white_vect = sorted;
        } else {
            self.moves.black_vect = sorted;
        }
        let copy = self.moves.copy();
        self.cached_moves.insert(self.info.zkey, copy);
    }

    /// Set up the retained state of the board: the full position key, the masks and the king
    /// squares (the last king of each colour on the board); then settle the position.
    pub fn init(&mut self)
        requires
            old(self).wf(),
            old(self).info.allowed_castles < 16,
            kings_of(old(self).board@).0 != 65 || old(self).info.king_indices@[0] != 65,
            kings_of(old(self).board@).1 != 65 || old(self).info.king_indices@[1] != 65,
        ensures
            final(self).wf(),
            exists|info: RetainedStateInfo|
                #![trigger initialised(&old(self).zobrist, old(self).board@, old(self).turn, old(self).info, info)]
                initialised(&old(self).zobrist, old(self).board@, old(self).turn, old(self).info, info)
                    && settled(final(self), old(self).board@, info, old(self).cached_moves@, old(self).zobrist),
            final(self).turn == old(self).turn,
            final(self).history() == old(self).history(),
            final(self).num_cached == old(self).num_cached,
            final(self).num_analyzed == old(self).num_analyzed,
    {
        let key = self.zobrist.kof_board(self);
        self.info.zkey = key;
        self.info.maskset = MaskSet::from_board(&self.board);
        let kings = self.board.get_kings();
        if kings[0] != 65 {
            self.info.king_indices[0] = kings[0];
        }
        if kings[1] != 65 {
            self.info.king_indices[1] = kings[1];
        }
        let ghost info = self.info;
        self.hydrate();
        proof {
            assert(initialised(&old(self).zobrist, old(self).board@, old(self).turn, old(self).info, info));
        }
    }

    /// The position seen from the other side: the board turned over with colours swapped, the
    /// en-passant square turned over, the castling rights of the two sides swapped, and the
    /// masks and king squares of the turned board.
    pub fn partial_flipped(&self) -> (r: PartialState)
        ensures
            r.board@ == flipped_board(self.board@),
            forall|j: int| 0 <= j < 64 ==> #[trigger] bit(r.enpassant_mask.raw, j) == bit(self.info.enpassant_mask.raw, flip_square(j)),
            r.allowed_castles == swapped_castles(self.info.allowed_castles),
            r.maskset == maskset_of(r.board@),
            r.king_indices@[0] == kings_of(r.board@).0,
            r.king_indices@[1] == kings_of(r.board@).1,
    {
        let flip = self.board.flipped();
        let low = self.info.allowed_castles & 0b0000_0011;
        let high = self.info.allowed_castles & 0b0000_1100;
        PartialState {
            board: flip,
            enpassant_mask: self.info.enpassant_mask.flipped(),
            allowed_castles: (low << 2) | (high >> 2),
            maskset: MaskSet::from_board(&flip),
            king_indices: flip.get_kings(),
        }
    }

    /// Settle the moves of the position: take them from the cache of moves by key, or
    /// generate and cache them; then record the position among the analysed ones.
    pub fn hydrate(&mut self)
        requires
            old(self).wf(),
        ensures
            final(self).wf(),
            settled(final(self), old(self).board@, old(self).info, old(self).cached_moves@, old(self).zobrist),
            final(self).turn == old(self).turn,
            final(self).history() == old(self).history(),
            final(self).num_cached == old(self).num_cached,
            final(self).num_analyzed == old(self).num_analyzed,
    {
        let key = self.info.zkey;
        match self.cached_moves.get(&key) {
            Some(cached) => {
                self.moves = cached.copy();
            },
            None => {
                self.moves = self.board.get_motions(
                    &self.info.maskset,
                    &self.info.enpassant_mask,
                    Some(self.info.allowed_castles),
                );
                let copy = self.moves.copy();
                self.cached_moves.insert(key, copy);
            },
        }
        self.zobrist.save(CachedPosition { info: self.info, moves: self.moves.copy(), evaluation: None });
    }
}

impl Default for State {
    fn default() -> (r: State)
        ensures
            r.wf(),
            r.history().len() == 0,
            r.board@ == Seq::new(64, |i: int| 0u8),
            r.turn == Parity::NONE,
            no_motions(&r.moves),
            r.cached_moves@ == Map::<u64, MotionSet>::empty(),
            r.zobrist.cache_keys() == Set::<u64>::empty(),
            r.info.king_indices@ == seq![65usize, 65usize],
            r.info.enpassant_mask.raw == 0,
            r.info.allowed_castles == 0,
            r.info.zkey == 0,
            r.info.maskset.white.raw == 0 && r.info.maskset.black.raw == 0 && r.info.maskset.all.raw == 0,
            r.info.halfmove_clock == 0,
            r.info.fullmove_number == 0,
            r.num_cached == 0,
            r.num_analyzed == 0,
    {
        let r = State {
            moves: MotionSet::default(),
            turn: Parity::NONE,
            board: [0u8; 64],
            zobrist: Zobrist::init(),
            held_info: Vec::new(),
            info: RetainedStateInfo::default(),
            held_boards: Vec::new(),
            num_analyzed: 0,
            num_cached: 0,
            cached_moves: HashMap::new(),
        };
        proof {
            assert(r.board@ =~= Seq::new(64, |i: int| 0u8));
        }
        r
    }
}

} // verus!
