use vstd::prelude::*;
use crate::bits::{bit, single, group_bits, mask_of, lemma_is_mask_of};
use crate::chessbyte::{ChessByte, byte_is_white, byte_is_black};
use crate::mask::Mask;

verus! {

broadcast use group_bits;

/// The squares of the white pieces, of the black pieces, and of all pieces.
#[derive(Clone, Copy, Debug, PartialEq, Eq, Structural)]
pub struct MaskSet {
    pub white: Mask,
    pub black: Mask,
    pub all: Mask,
}

/// What `MaskSet::from_board` gives for a board: a square is white when its byte has the
/// white bit, black when it holds a black piece, and in `all` when it is either.
pub open spec fn is_board_maskset(ms: MaskSet, board: Seq<u8>) -> bool {
    &&& forall|i: int| 0 <= i < 64 ==> #[trigger] bit(ms.white.raw, i) == byte_is_white(board[i])
    &&& forall|i: int| 0 <= i < 64 ==> #[trigger] bit(ms.black.raw, i) == byte_is_black(board[i])
    &&& forall|i: int|
        0 <= i < 64 ==> #[trigger] bit(ms.all.raw, i) == (byte_is_white(board[i]) || byte_is_black(
            board[i],
        ))
}

/// The mask set of a board.
pub open spec fn maskset_of(board: Seq<u8>) -> MaskSet {
    MaskSet {
        white: Mask { raw: mask_of(|i: int| byte_is_white(board[i])) },
        black: Mask { raw: mask_of(|i: int| byte_is_black(board[i])) },
        all: Mask { raw: mask_of(|i: int| byte_is_white(board[i]) || byte_is_black(board[i])) },
    }
}

impl Default for MaskSet {
    fn default() -> (r: MaskSet)
        ensures
            r.white.raw == 0 && r.black.raw == 0 && r.all.raw == 0,
    {
        MaskSet { white: Mask { raw: 0 }, black: Mask { raw: 0 }, all: Mask { raw: 0 } }
    }
}

impl MaskSet {
    /// The mask set of a board.
    pub fn from_board(board: &[u8; 64]) -> (r: Self)
        ensures
            is_board_maskset(r, board@),
            r == maskset_of(board@),
    {
        let mut white: u64 = 0;
        let mut black: u64 = 0;
        let mut index: usize = 0;
        while index < 64
            invariant
                index <= 64,
                forall|i: int|
                    0 <= i < 64 ==> #[trigger] bit(white, i) == (i < index && byte_is_white(board@[i])),
                forall|i: int|
                    0 <= i < 64 ==> #[trigger] bit(black, i) == (i < index && byte_is_black(board@[i])),
            decreases 64 - index,
        {
            let byte = board[index];
            if byte.is_white() {
                white = white | (1u64 << (index as u64));
            } else if byte.is_black() {
                black = black | (1u64 << (index as u64));
            }
            proof {
                assert forall|i: int| 0 <= i < 64 implies #[trigger] bit(white, i) == (i < index + 1
                    && byte_is_white(board@[i])) by {
                    assert(bit(single(index as int), i) == (index == i));
                }
                assert forall|i: int| 0 <= i < 64 implies #[trigger] bit(black, i) == (i < index + 1
                    && byte_is_black(board@[i])) by {
                    assert(bit(single(index as int), i) == (index == i));
                }
            }
            index = index + 1;
        }
        let all: u64 = 0u64 | (white | black);
        proof {
            assert forall|i: int| 0 <= i < 64 implies #[trigger] bit(all, i) == (byte_is_white(board@[i])
                || byte_is_black(board@[i])) by {
                assert(bit(white | black, i) == (bit(white, i) || bit(black, i)));
            }
        }
        proof {
            lemma_is_mask_of(white, |i: int| byte_is_white(board@[i]));
            lemma_is_mask_of(black, |i: int| byte_is_black(board@[i]));
            lemma_is_mask_of(all, |i: int| byte_is_white(board@[i]) || byte_is_black(board@[i]));
        }
        MaskSet { white: Mask { raw: white }, black: Mask { raw: black }, all: Mask { raw: all } }
    }
}

/// A board never has a square both white and black.
pub proof fn lemma_maskset_disjoint(ms: MaskSet, board: Seq<u8>, i: int)
    requires
        is_board_maskset(ms, board),
        0 <= i < 64,
    ensures
        !(bit(ms.white.raw, i) && bit(ms.black.raw, i)),
        bit(ms.all.raw, i) == (bit(ms.white.raw, i) || bit(ms.black.raw, i)),
{
}

} // verus!
