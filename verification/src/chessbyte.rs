use vstd::prelude::*;
use crate::piece::{Parity, PieceByte, piece_of_code};

verus! {

// A board byte: bits 0..3 hold the kind of piece (0 for an empty square), bit 3 is set for
// white, bit 5 marks a kingside piece, bit 6 a queenside one and bit 7 a piece that has moved.

/// The kind of piece that a board byte holds.
pub open spec fn byte_piece(b: u8) -> PieceByte {
    piece_of_code(b & 7u8)
}

/// Whether a board byte holds a piece.
pub open spec fn byte_is_piece(b: u8) -> bool {
    b & 7u8 != 0
}

/// Whether a board byte has the white bit.
pub open spec fn byte_is_white(b: u8) -> bool {
    b & 8u8 != 0
}

/// Whether a board byte holds a black piece.
pub open spec fn byte_is_black(b: u8) -> bool {
    b & 7u8 != 0 && b & 8u8 == 0
}

/// The side of the piece on a board byte; `NONE` for an empty square.
pub open spec fn byte_parity(b: u8) -> Parity {
    if byte_is_piece(b) {
        if byte_is_white(b) {
            Parity::WHITE
        } else {
            Parity::BLACK
        }
    } else {
        Parity::NONE
    }
}

/// Whether a board byte holds something of the given side.
pub open spec fn byte_is_parity(b: u8, p: Parity) -> bool {
    b & 15u8 != 0 && byte_parity(b) == p
}

/// Whether a board byte holds a white piece of the given kind.
pub open spec fn byte_is_white_kind(b: u8, k: u8) -> bool {
    b & 7u8 == k && b & 8u8 != 0
}

/// Whether a board byte holds a black piece of the given kind.
pub open spec fn byte_is_black_kind(b: u8, k: u8) -> bool {
    b & 7u8 == k && b & 8u8 == 0
}

/// The direction bits of a sliding piece: rook `0b0000_1111`, bishop `0b1111_0000`, queen all.
pub open spec fn byte_directions(b: u8) -> u8 {
    let k = b & 7u8;
    if k == 1 {
        0b0000_1111u8
    } else if k == 3 {
        0b1111_0000u8
    } else if k == 4 {
        0b1111_1111u8
    } else {
        0u8
    }
}

/// The upper-case letter of a kind of piece.
pub open spec fn kind_letter(k: u8) -> char {
    if k == 5 {
        'K'
    } else if k == 2 {
        'P'
    } else if k == 1 {
        'R'
    } else if k == 6 {
        'N'
    } else if k == 4 {
        'Q'
    } else if k == 3 {
        'B'
    } else {
        ' '
    }
}

/// The lower-case letter of a kind of piece.
pub open spec fn kind_letter_lower(k: u8) -> char {
    if k == 5 {
        'k'
    } else if k == 2 {
        'p'
    } else if k == 1 {
        'r'
    } else if k == 6 {
        'n'
    } else if k == 4 {
        'q'
    } else if k == 3 {
        'b'
    } else {
        ' '
    }
}

/// The letter of a board byte: upper case for white, lower case for black, a space for empty.
pub open spec fn byte_letter(b: u8) -> char {
    if !byte_is_piece(b) {
        ' '
    } else if byte_is_white(b) {
        kind_letter(b & 7u8)
    } else {
        kind_letter_lower(b & 7u8)
    }
}

/// Which side bits a castling piece must carry.
#[derive(Clone, Copy, Debug, PartialEq, Eq, Structural)]
pub enum SideCheck {
    Sided,
    Kingside,
    Queenside,
}

/// What a side check says of a byte.
pub open spec fn side_check_holds(check: SideCheck, b: u8) -> bool {
    match check {
        SideCheck::Sided => b & 0b0110_0000u8 != 0,
        SideCheck::Kingside => b & 0b0010_0111u8 != 0,
        SideCheck::Queenside => b & 0b0100_0111u8 != 0,
    }
}

/// The low three bits of a byte are a code below eight.
pub proof fn lemma_kind_bits(b: u8)
    ensures
        b & 7u8 <= 7,
        (b & 15u8 != 0) == (b & 7u8 != 0 || b & 8u8 != 0),
{
    assert(b & 7u8 <= 7) by (bit_vector);
    assert((b & 15u8 != 0) == (b & 7u8 != 0 || b & 8u8 != 0)) by (bit_vector);
}

/// The kind and side bits of a piece byte are the code of its kind and side.
pub proof fn lemma_compose(k: u8, w: bool, extra: u8)
    requires
        k <= 7,
        extra & 15u8 == 0,
    ensures
        ((k | (if w { 8u8 } else { 0u8 }) | extra) & 7u8) == k,
        (((k | (if w { 8u8 } else { 0u8 }) | extra) & 8u8) != 0) == w,
{
    let s: u8 = if w { 8u8 } else { 0u8 };
    assert(((k | 8u8 | extra) & 7u8) == k && ((k | 8u8 | extra) & 8u8) != 0) by (bit_vector)
        requires
            k <= 7,
            extra & 15u8 == 0,
    ;
    assert(((k | 0u8 | extra) & 7u8) == k && ((k | 0u8 | extra) & 8u8) == 0) by (bit_vector)
        requires
            k <= 7,
            extra & 15u8 == 0,
    ;
}

/// Reading the parts of a board byte.
pub trait ChessByte {
    fn get_parity(&self) -> (r: Parity);

    fn get_piece(&self) -> (r: PieceByte);

    fn get_directions(&self) -> (r: u8);

    fn has_moved(&self) -> (r: bool);

    fn is_kingside(&self) -> (r: bool);

    fn is_queenside(&self) -> (r: bool);

    fn is_king(&self) -> (r: bool);

    fn is_rook(&self) -> (r: bool);

    fn is_pawn(&self) -> (r: bool);

    fn is_bishop(&self) -> (r: bool);

    fn is_queen(&self) -> (r: bool);

    fn is_knight(&self) -> (r: bool);

    fn is_sided(&self) -> (r: bool);

    fn to_letter(&self) -> (r: char);

    fn is_castleable(&self, king_byte: u8, side_check: SideCheck) -> (r: bool);

    fn is_white(&self) -> (r: bool);

    fn is_black(&self) -> (r: bool);

    fn is_piece(&self) -> (r: bool);

    fn same_parity(&self, other: &u8) -> (r: bool);

    fn same_piece(&self, other: &u8) -> (r: bool);

    fn is_parity(&self, parity: Parity) -> (r: bool);

    fn is_w_king(&self) -> (r: bool);

    fn is_b_king(&self) -> (r: bool);

    fn is_w_pawn(&self) -> (r: bool);

    fn is_b_pawn(&self) -> (r: bool);

    fn is_w_queen(&self) -> (r: bool);

    fn is_b_queen(&self) -> (r: bool);

    fn is_w_knight(&self) -> (r: bool);

    fn is_w_bishop(&self) -> (r: bool);
}

impl ChessByte for u8 {
    fn is_white(&self) -> (r: bool)
        ensures
            r == byte_is_white(*self),
    {
        (*self & 0b0000_1000) != 0
    }

    fn is_black(&self) -> (r: bool)
        ensures
            r == byte_is_black(*self),
    {
        (*self & 0b0000_0111) != 0 && (*self & 0b0000_1000) == 0
    }

    fn is_parity(&self, parity: Parity) -> (r: bool)
        ensures
            r == byte_is_parity(*self, parity),
    {
        (*self & 0b0000_1111) != 0 && self.get_parity() == parity
    }

    fn is_piece(&self) -> (r: bool)
        ensures
            r == byte_is_piece(*self),
    {
        (*self & 0b0000_0111) != 0
    }

    fn has_moved(&self) -> (r: bool)
        ensures
            r == (*self & 0b1000_0000u8 != 0),
    {
        (*self & 0b1000_0000) != 0
    }

    fn is_kingside(&self) -> (r: bool)
        ensures
            r == (*self & 0b0010_0111u8 != 0),
    {
        (*self & 0b0010_0111) != 0
    }

    fn is_queenside(&self) -> (r: bool)
        ensures
            r == (*self & 0b0100_0111u8 != 0),
    {
        (*self & 0b0100_0111) != 0
    }

    fn is_king(&self) -> (r: bool)
        ensures
            r == (*self & 7u8 == 5),
    {
        (*self & 0b0000_0111) == 0b0000_0101
    }

    fn is_rook(&self) -> (r: bool)
        ensures
            r == (*self & 7u8 == 1),
    {
        (*self & 0b0000_0111) == 0b0000_0001
    }

    fn is_pawn(&self) -> (r: bool)
        ensures
            r == (*self & 7u8 == 2),
    {
        (*self & 0b0000_0111) == 0b0000_0010
    }

    fn is_bishop(&self) -> (r: bool)
        ensures
            r == (*self & 7u8 == 3),
    {
        (*self & 0b0000_0111) == 0b0000_0011
    }

    fn is_queen(&self) -> (r: bool)
        ensures
            r == (*self & 7u8 == 4),
    {
        (*self & 0b0000_0111) == 0b0000_0100
    }

    fn is_knight(&self) -> (r: bool)
        ensures
            r == (*self & 7u8 == 6),
    {
        (*self & 0b0000_0111) == 0b0000_0110
    }

    fn get_piece(&self) -> (r: PieceByte)
        ensures
            r == byte_piece(*self),
    {
        PieceByte::from_u8(*self & 0b0000_0111)
    }

    fn is_sided(&self) -> (r: bool)
        ensures
            r == (*self & 0b0110_0000u8 != 0),
    {
        (*self & 0b0110_0000u8) != 0
    }

    fn get_parity(&self) -> (r: Parity)
        ensures
            r == byte_parity(*self),
    {
        if self.is_piece() {
            if self.is_white() {
                Parity::WHITE
            } else {
                Parity::BLACK
            }
        } else {
            Parity::NONE
        }
    }

    fn same_parity(&self, other: &u8) -> (r: bool)
        ensures
            r == ((*self ^ *other) & 8u8 == 0),
    {
        ((*self ^ *other) & 0b0000_1000) == 0
    }

    fn same_piece(&self, other: &u8) -> (r: bool)
        ensures
            r == ((*self ^ *other) & 7u8 == 0),
    {
        ((*self ^ *other) & 0b0000_0111) == 0
    }

    fn is_castleable(&self, king_byte: u8, side_check: SideCheck) -> (r: bool)
        ensures
            r == (((*self & 0b1000_0111u8) ^ 0b0000_0110u8) == 0b0000_0111u8 && side_check_holds(
                side_check,
                *self,
            ) && ((*self ^ king_byte) & 8u8 == 0)),
    {
        let side = match side_check {
            SideCheck::Sided => byte_is_sided(self),
            SideCheck::Kingside => byte_is_kingside(self),
            SideCheck::Queenside => byte_is_queenside(self),
        };
        ((*self & 0b1000_0111) ^ 0b0000_0110) == 0b0000_0111 && side && self.same_parity(&king_byte)
    }

    fn get_directions(&self) -> (r: u8)
        ensures
            r == byte_directions(*self),
    {
        let k = *self & 0b0000_0111;
        if k == 1 {
            0b00001111
        } else if k == 3 {
            0b11110000
        } else if k == 4 {
            0b11111111
        } else {
            0b00000000
        }
    }

    fn to_letter(&self) -> (r: char)
        ensures
            r == byte_letter(*self),
    {
        if self.is_piece() {
            let k = *self & 0b0000_0111;
            if self.is_white() {
                if k == 5 {
                    'K'
                } else if k == 2 {
                    'P'
                } else if k == 1 {
                    'R'
                } else if k == 6 {
                    'N'
                } else if k == 4 {
                    'Q'
                } else if k == 3 {
                    'B'
                } else {
                    ' '
                }
            } else {
                if k == 5 {
                    'k'
                } else if k == 2 {
                    'p'
                } else if k == 1 {
                    'r'
                } else if k == 6 {
                    'n'
                } else if k == 4 {
                    'q'
                } else if k == 3 {
                    'b'
                } else {
                    ' '
                }
            }
        } else {
            ' '
        }
    }

    fn is_w_king(&self) -> (r: bool)
        ensures
            r == byte_is_white_kind(*self, 5),
    {
        (*self & 0b0000_0111) == 5 && (*self & 0b0000_1000) != 0
    }

    fn is_b_king(&self) -> (r: bool)
        ensures
            r == byte_is_black_kind(*self, 5),
    {
        (*self & 0b0000_0111) == 5 && (*self & 0b0000_1000) == 0
    }

    fn is_w_pawn(&self) -> (r: bool)
        ensures
            r == byte_is_white_kind(*self, 2),
    {
        (*self & 0b0000_0111) == 2 && (*self & 0b0000_1000) != 0
    }

    fn is_b_pawn(&self) -> (r: bool)
        ensures
            r == byte_is_black_kind(*self, 2),
    {
        (*self & 0b0000_0111) == 2 && (*self & 0b0000_1000) == 0
    }

    fn is_w_queen(&self) -> (r: bool)
        ensures
            r == byte_is_white_kind(*self, 4),
    {
        (*self & 0b0000_0111) == 4 && (*self & 0b0000_1000) != 0
    }

    fn is_b_queen(&self) -> (r: bool)
        ensures
            r == byte_is_black_kind(*self, 4),
    {
        (*self & 0b0000_0111) == 4 && (*self & 0b0000_1000) == 0
    }

    fn is_w_knight(&self) -> (r: bool)
        ensures
            r == byte_is_white_kind(*self, 6),
    {
        (*self & 0b0000_0111) == 6 && (*self & 0b0000_1000) != 0
    }

    fn is_w_bishop(&self) -> (r: bool)
        ensures
            r == byte_is_white_kind(*self, 3),
    {
        (*self & 0b0000_0111) == 3 && (*self & 0b0000_1000) != 0
    }
}

/// Whether a byte carries a side bit (kingside or queenside).
pub fn byte_is_sided(byte: &u8) -> (r: bool)
    ensures
        r == (*byte & 0b0110_0000u8 != 0),
{
    byte.is_sided()
}

/// Whether a byte is a kingside piece (or any piece: the mask includes the kind bits).
pub fn byte_is_kingside(byte: &u8) -> (r: bool)
    ensures
        r == (*byte & 0b0010_0111u8 != 0),
{
    byte.is_kingside()
}

/// Whether a byte is a queenside piece (or any piece: the mask includes the kind bits).
pub fn byte_is_queenside(byte: &u8) -> (r: bool)
    ensures
        r == (*byte & 0b0100_0111u8 != 0),
{
    byte.is_queenside()
}

} // verus!
