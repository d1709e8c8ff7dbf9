use vstd::prelude::*;
use std::collections::HashMap;
use rand_chacha::ChaCha8Rng;
use rand_chacha::rand_core::{RngCore, SeedableRng};
use crate::chessbyte::{ChessByte, byte_is_white, byte_piece, byte_is_piece};
use crate::evaluator::{Evaluator, same_evaluation};
use crate::mask::index_of;
use crate::motion::{MotionSet, same_motions};
use crate::piece::{Parity, PieceByte};
use crate::state::{RetainedStateInfo, State};

verus! {

broadcast use vstd::std_specs::hash::group_hash_axioms;

#[verifier::external_type_specification]
#[verifier::external_body]
pub struct ExChaCha8Rng(ChaCha8Rng);

/// The `n`-th 64-bit output (counting from 0) of a `ChaCha8Rng` made by
/// `SeedableRng::seed_from_u64(seed)` and drawn from only by `RngCore::next_u64`.
pub uninterp spec fn chacha8_word(seed: u64, n: nat) -> u64;

/// A ChaCha8 generator together with its seed and the number of words drawn from it. Only the
/// two trusted functions below make one or draw from it, so the counts always match the
/// generator's place in its stream.
struct KeyStream {
    rng: ChaCha8Rng,
    seed: Ghost<u64>,
    drawn: Ghost<nat>,
}

/// `rand_core::SeedableRng::seed_from_u64` for `ChaCha8Rng`: a generator seeded from `seed`,
/// from which nothing has been drawn yet.
#[verifier::external_body]
fn key_stream(seed: u64) -> (r: KeyStream)
    ensures
        r.seed@ == seed,
        r.drawn@ == 0,
{
    KeyStream { rng: ChaCha8Rng::seed_from_u64(seed), seed: Ghost(seed), drawn: Ghost(0) }
}

/// `rand_core::RngCore::next_u64` for `ChaCha8Rng`: the next word of the stream. rand_core
/// documents a seeded generator as reproducible (the same seed gives the same sequence on all
/// runs, versions and machines), so the word is the one at the stream's place for its seed.
#[verifier::external_body]
fn draw(stream: &mut KeyStream) -> (r: u64)
    ensures
        r == chacha8_word(old(stream).seed@, old(stream).drawn@),
        final(stream).seed@ == old(stream).seed@,
        final(stream).drawn@ == old(stream).drawn@ + 1,
{
    stream.rng.next_u64()
}

/// What the position cache holds for a key: the retained state, the moves, and an
/// evaluation when one was made.
pub struct CachedPosition {
    pub info: RetainedStateInfo,
    pub moves: MotionSet,
    pub evaluation: Option<Evaluator>,
}

/// Random keys for hashing positions, and a cache of analysed positions by key.
pub struct Zobrist {
    pub zpieces: [[u64; 12]; 64],
    pub zcastles: [u64; 16],
    pub zpassant: [u64; 9],
    pub zside: u64,
    table: HashMap<u64, CachedPosition>,
}

/// The column of the key table for a piece byte: kinds rook, pawn, bishop, queen, king and
/// knight take 0..6 for black and 6..12 for white; an empty square takes 0 or 6.
pub open spec fn piece_key_index(b: u8) -> int {
    (if byte_is_white(b) { 6int } else { 0int }) + match byte_piece(b) {
        PieceByte::ROOK => 0int,
        PieceByte::PAWN => 1int,
        PieceByte::BISHOP => 2int,
        PieceByte::QUEEN => 3int,
        PieceByte::KING => 4int,
        PieceByte::KNIGHT => 5int,
        PieceByte::NONE => 0int,
    }
}

/// The keys of the pieces on squares `0..n` xor-ed together.
pub open spec fn board_key(z: &Zobrist, b: Seq<u8>, n: int) -> u64
    decreases n,
{
    if n <= 0 {
        0u64
    } else {
        board_key(z, b, n - 1) ^ (if byte_is_piece(b[n - 1]) {
            z.piece_key(n - 1, piece_key_index(b[n - 1]))
        } else {
            0u64
        })
    }
}

/// The full key of a position: its pieces, the column of its en-passant square (`as_index`
/// taken modulo 8), black to move, and its castling rights.
pub open spec fn position_key(z: &Zobrist, b: Seq<u8>, ep: u64, turn: Parity, castles: u8) -> u64 {
    board_key(z, b, 64) ^ z.passant_key(index_of(ep) % 8) ^ (if turn == Parity::BLACK {
        z.side_key()
    } else {
        0u64
    }) ^ z.castle_key(castles as int)
}

/// The key that the byte `v` on square `i` adds to a board's key: its piece key, or nothing for
/// an empty square.
pub open spec fn square_key(z: &Zobrist, v: u8, i: int) -> u64 {
    if byte_is_piece(v) {
        z.piece_key(i, piece_key_index(v))
    } else {
        0u64
    }
}

/// Two boards that agree on every square below `n` but `from` and `to` have keys that differ by
/// the change of those two squares' keys.
pub proof fn lemma_board_key_two_squares(z: &Zobrist, b: Seq<u8>, b2: Seq<u8>, from: int, to: int, n: int)
    requires
        from != to,
        0 <= n <= 64,
        forall|j: int| 0 <= j < n && j != from && j != to ==> #[trigger] b2[j] == b[j],
    ensures
        board_key(z, b2, n) ^ board_key(z, b, n) == (if 0 <= from < n {
            square_key(z, b2[from], from) ^ square_key(z, b[from], from)
        } else {
            0u64
        }) ^ (if 0 <= to < n {
            square_key(z, b2[to], to) ^ square_key(z, b[to], to)
        } else {
            0u64
        }),
    decreases n,
{
    let fk = |m: int| if 0 <= from < m { square_key(z, b2[from], from) ^ square_key(z, b[from], from) } else { 0u64 };
    let tk = |m: int| if 0 <= to < m { square_key(z, b2[to], to) ^ square_key(z, b[to], to) } else { 0u64 };
    if n <= 0 {
        lemma_xor_shared(0u64, 0u64, 0u64, 0u64);
    } else {
        lemma_board_key_two_squares(z, b, b2, from, to, n - 1);
        let a2 = board_key(z, b2, n - 1);
        let a = board_key(z, b, n - 1);
        let e2 = square_key(z, b2[n - 1], n - 1);
        let e = square_key(z, b[n - 1], n - 1);
        assert(board_key(z, b2, n) == a2 ^ e2);
        assert(board_key(z, b, n) == a ^ e);
        lemma_xor_shared(a2, e2, e, a);
        if n - 1 == from {
            lemma_xor_shared(0u64, e2 ^ e, tk(n - 1), 0u64);
            assert(fk(n - 1) == 0u64);
            lemma_xor_shared(0u64, e2 ^ e, 0u64, 0u64);
        } else if n - 1 == to {
            lemma_xor_shared(0u64, fk(n - 1), e2 ^ e, 0u64);
            assert(tk(n - 1) == 0u64);
        } else {
            assert(e2 == e);
            lemma_xor_shared(0u64, a2 ^ a, e, 0u64);
        }
    }
}

/// Xor-ing two keys that share a part leaves the xor of the parts they differ in; and the
/// rearrangements of xor that key updates need.
pub(crate) proof fn lemma_xor_shared(a: u64, x: u64, y: u64, c: u64)
    by (bit_vector)
    ensures
        (a ^ x) ^ (a ^ y) == x ^ y,
        ((a ^ 0u64) ^ c) ^ ((a ^ x) ^ c) == x,
        ((a ^ x) ^ (c ^ y)) == ((a ^ c) ^ (x ^ y)),
        x ^ x == 0u64,
        x ^ 0u64 == x,
        (0u64 ^ y) ^ x == x ^ y,
        (x ^ 0u64) ^ y == x ^ y,
        ((a ^ x) ^ y) ^ a == (0u64 ^ x) ^ (y ^ 0u64),
        (((a ^ x) ^ y) ^ c) ^ a == (0u64 ^ x) ^ (c ^ y),
{
}

/// The full key tells castling rights apart: the keys of two positions that differ only in
/// their castling rights differ by exactly the two rights' keys, and the keys of two positions
/// that differ only in the side to move differ by exactly the side key.
pub proof fn lemma_position_key_parts(z: &Zobrist, b: Seq<u8>, ep: u64, turn: Parity, c1: u8, c2: u8)
    ensures
        position_key(z, b, ep, turn, c1) ^ position_key(z, b, ep, turn, c2) == z.castle_key(c1 as int)
            ^ z.castle_key(c2 as int),
        position_key(z, b, ep, Parity::WHITE, c1) ^ position_key(z, b, ep, Parity::BLACK, c1) == z.side_key(),
{
    let a = board_key(z, b, 64) ^ z.passant_key(index_of(ep) % 8) ^ (if turn == Parity::BLACK {
        z.side_key()
    } else {
        0u64
    });
    lemma_xor_shared(a, z.castle_key(c1 as int), z.castle_key(c2 as int), 0u64);
    let p = board_key(z, b, 64) ^ z.passant_key(index_of(ep) % 8);
    lemma_xor_shared(p, z.side_key(), 0u64, z.castle_key(c1 as int));
}

/// Whether `new` is `old` with an entry cached under its key: the key joins the cache with a
/// copy of the entry, the other entries and the key tables stay.
pub open spec fn saved(old: &Zobrist, new: &Zobrist, stuff: &CachedPosition) -> bool {
    &&& new.cache_keys() == old.cache_keys().insert(stuff.info.zkey)
    &&& same_cached(&new.cached(stuff.info.zkey), stuff)
    &&& forall|k: u64| k != stuff.info.zkey && old.cache_keys().contains(k) ==> #[trigger] new.cached(k) == old.cached(k)
    &&& new.same_keys(old)
}

/// An entry cached under a key is found under it afterwards, as a copy; the entries of other
/// keys are found as they were.
pub proof fn lemma_pull_after_save(old: &Zobrist, new: &Zobrist, stuff: &CachedPosition, k: u64)
    requires
        saved(old, new, stuff),
    ensures
        new.cache_keys().contains(stuff.info.zkey),
        same_cached(&new.cached(stuff.info.zkey), stuff),
        k != stuff.info.zkey ==> (new.cache_keys().contains(k) == old.cache_keys().contains(k)),
        k != stuff.info.zkey && old.cache_keys().contains(k) ==> new.cached(k) == old.cached(k),
{
}

/// Whether a cached entry is a copy of another.
pub open spec fn same_cached(a: &CachedPosition, b: &CachedPosition) -> bool {
    &&& a.info == b.info
    &&& same_motions(&a.moves, &b.moves)
    &&& match (a.evaluation, b.evaluation) {
        (Some(x), Some(y)) => same_evaluation(&x, &y),
        (None, None) => true,
        _ => false,
    }
}

impl CachedPosition {
    /// A copy of the entry.
    pub fn copy(&self) -> (r: CachedPosition)
        ensures
            same_cached(&r, self),
    {
        CachedPosition {
            info: self.info,
            moves: self.moves.copy(),
            evaluation: match &self.evaluation {
                Some(e) => Some(e.copy()),
                None => None,
            },
        }
    }
}

impl Zobrist {
    /// Keys drawn from a ChaCha8 generator seeded with 123, in this order: the side key, the
    /// piece keys square by square, the castling keys, and the en-passant keys of columns
    /// 1..9; the en-passant key of "no column" is 0 and the cache starts empty.
    pub fn init() -> (r: Self)
        ensures
            r.side_key() == chacha8_word(123, 0),
            forall|i: int, k: int|
                0 <= i < 64 && 0 <= k < 12 ==> #[trigger] r.piece_key(i, k) == chacha8_word(123, (1 + 12 * i + k) as nat),
            forall|c: int| 0 <= c < 16 ==> #[trigger] r.castle_key(c) == chacha8_word(123, (769 + c) as nat),
            r.passant_key(0) == 0,
            forall|e: int| 1 <= e < 9 ==> #[trigger] r.passant_key(e) == chacha8_word(123, (784 + e) as nat),
            r.cache_keys() == Set::<u64>::empty(),
    {
        let seed: u64 = 123;
        let mut rng = key_stream(seed);
        let zside = draw(&mut rng);
        let mut zpieces: [[u64; 12]; 64] = [[0u64; 12]; 64];
        let mut i: usize = 0;
        while i < 64
            invariant
                i <= 64,
                rng.seed@ == 123,
                rng.drawn@ == 1 + 12 * i,
                forall|a: int, k: int|
                    0 <= a < i && 0 <= k < 12 ==> #[trigger] zpieces@[a]@[k] == chacha8_word(123, (1 + 12 * a + k) as nat),
            decreases 64 - i,
        {
            let mut row: [u64; 12] = [0u64; 12];
            let mut p: usize = 0;
            while p < 12
                invariant
                    p <= 12,
                    i < 64,
                    rng.seed@ == 123,
                    rng.drawn@ == 1 + 12 * i + p,
                    forall|k: int| 0 <= k < p ==> #[trigger] row@[k] == chacha8_word(123, (1 + 12 * i + k) as nat),
                decreases 12 - p,
            {
                row[p] = draw(&mut rng);
                p = p + 1;
            }
            zpieces[i] = row;
            i = i + 1;
        }
        let mut zcastles: [u64; 16] = [0u64; 16];
        let mut c: usize = 0;
        while c < 16
            invariant
                c <= 16,
                rng.seed@ == 123,
                rng.drawn@ == 769 + c,
                forall|a: int| 0 <= a < c ==> #[trigger] zcastles@[a] == chacha8_word(123, (769 + a) as nat),
            decreases 16 - c,
        {
            zcastles[c] = draw(&mut rng);
            c = c + 1;
        }
        let mut zpassant: [u64; 9] = [0u64; 9];
        zpassant[0] = 0;
        let mut e: usize = 1;
        while e < 9
            invariant
                1 <= e <= 9,
                rng.seed@ == 123,
                rng.drawn@ == 784 + e,
                zpassant@[0] == 0,
                forall|a: int| 1 <= a < e ==> #[trigger] zpassant@[a] == chacha8_word(123, (784 + a) as nat),
            decreases 9 - e,
        {
            zpassant[e] = draw(&mut rng);
            e = e + 1;
        }
        Zobrist { zpieces, zcastles, zpassant, zside, table: HashMap::new() }
    }

    /// The key of piece column `k` on square `index`.
    pub closed spec fn piece_key(&self, index: int, k: int) -> u64 {
        self.zpieces@[index]@[k]
    }

    /// The en-passant key of column slot `k` (0 for none, 1..9 for columns).
    pub closed spec fn passant_key(&self, k: int) -> u64 {
        self.zpassant@[k]
    }

    /// The key of castling rights `k`.
    pub closed spec fn castle_key(&self, k: int) -> u64 {
        self.zcastles@[k]
    }

    /// The key of black to move.
    pub closed spec fn side_key(&self) -> u64 {
        self.zside
    }

    /// Whether two key tables agree.
    pub open spec fn same_keys(&self, other: &Zobrist) -> bool {
        &&& forall|i: int, k: int| #[trigger] self.piece_key(i, k) == other.piece_key(i, k)
        &&& forall|k: int| #[trigger] self.passant_key(k) == other.passant_key(k)
        &&& forall|k: int| #[trigger] self.castle_key(k) == other.castle_key(k)
        &&& self.side_key() == other.side_key()
    }

    /// The keys of the cached positions.
    pub closed spec fn cache_keys(&self) -> Set<u64> {
        self.table@.dom()
    }

    /// The cached entry of a key.
    pub closed spec fn cached(&self, key: u64) -> CachedPosition {
        self.table@[key]
    }

    /// The key of a piece byte (only its low four bits count) on square `index`.
    pub fn pieces(&self, byte: &u8, index: usize) -> (r: u64)
        requires
            index < 64,
        ensures
            r == self.piece_key(index as int, piece_key_index(*byte & 15u8)),
    {
        let b: u8 = *byte & 0b0000_1111;
        let k = Self::index_from_byte(&b);
        self.zpieces[index][k]
    }

    /// The full key of a state's position: the keys of its pieces, of the en-passant column,
    /// of black to move and of the castling rights.
    pub fn kof_board(&self, state: &State) -> (r: u64)
        requires
            state.info.allowed_castles < 16,
        ensures
            r == position_key(self, state.board@, state.info.enpassant_mask.raw, state.turn, state.info.allowed_castles),
    {
        let mut k: u64 = 0;
        let board = &state.board;
        let mut i: usize = 0;
        while i < 64
            invariant
                i <= 64,
                board == &state.board,
                k == board_key(self, board@, i as int),
            decreases 64 - i,
        {
            if board[i].is_piece() {
                k = k ^ self.zpieces[i][Zobrist::index_from_byte(&board[i])];
            } else {
                assert(k ^ 0u64 == k) by (bit_vector);
            }
            i = i + 1;
        }
        let ep = state.info.enpassant_mask.as_index();
        proof {
            crate::mask::lemma_lowest(state.info.enpassant_mask.raw);
        }
        k = k ^ self.zpassant[ep % 8];
        if state.turn == Parity::BLACK {
            k = k ^ self.zside;
        } else {
            assert(k ^ 0u64 == k) by (bit_vector);
        }
        k = k ^ self.zcastles[state.info.allowed_castles as usize];
        k
    }

    /// The column of the key table for a piece byte.
    pub fn index_from_byte(byte: &u8) -> (r: usize)
        ensures
            r == piece_key_index(*byte),
            r < 12,
    {
        let base: usize = if byte.is_white() {
            6
        } else {
            0
        };
        base + match byte.get_piece() {
            PieceByte::ROOK => 0,
            PieceByte::PAWN => 1,
            PieceByte::BISHOP => 2,
            PieceByte::QUEEN => 3,
            PieceByte::KING => 4,
            PieceByte::KNIGHT => 5,
            PieceByte::NONE => 0,
        }
    }

    /// Cache an entry under its retained state's key.
    pub fn save(&mut self, stuff: CachedPosition)
        ensures
            saved(old(self), final(self), &stuff),
    {
        let k = stuff.info.zkey;
        let ghost copy_of = stuff;
        self.table.insert(k, stuff);
        proof {
            assert(self.table@[k] == copy_of);
        }
    }

    /// A copy of the entry cached under a key, if there is one.
    pub fn pull(&self, zkey: u64) -> (r: Option<CachedPosition>)
        ensures
            r.is_some() == self.cache_keys().contains(zkey),
            r.is_some() ==> same_cached(&r.unwrap(), &self.cached(zkey)),
    {
        match self.table.get(&zkey) {
            Some(v) => Some(v.copy()),
            None => None,
        }
    }
}

} // verus!
