use vstd::prelude::*;
use vstd::string::StrSliceExecFns;
use vstd::utf8::{encode_utf8, is_char_boundary};
use crate::boardarray::{BoardArray, kind_side, kings_of, make_ok};
use crate::chessbyte::{ChessByte, byte_parity, byte_letter, byte_is_white};
use crate::legal::move_fits;
use crate::mask::{Mask, point_mask};
use crate::piece::{Parity, PieceByte, opposite};
use crate::point::{Point, algebraic_point, algebraic_to_point, square_index};
use crate::motion::{Motion, MotionSet, copy_list, lists_view};
use crate::state::{State, RetainedStateInfo, initialised, settled, made_motion};
use crate::zobrist::Zobrist;

verus! {

// Reading a position in Forsyth-Edwards notation. The board field lists the squares from
// index 0 on: a letter puts a piece (upper case white), a digit skips that many squares, a
// slash is ignored; then come the side to move, the castling rights, the en-passant square
// and the two move counters.

/// The side bits a piece gets from its column: queenside below column 4, kingside above.
pub open spec fn side_bits(index: int) -> u8 {
    let m = index % 8;
    if m < 4 {
        0b0100_0000u8
    } else if m > 4 {
        0b0010_0000u8
    } else {
        0u8
    }
}

/// The kind and colour bits of a piece letter.
pub open spec fn fen_piece(c: char) -> Option<u8> {
    if c == 'r' {
        Some(kind_side(PieceByte::ROOK, Parity::BLACK))
    } else if c == 'R' {
        Some(kind_side(PieceByte::ROOK, Parity::WHITE))
    } else if c == 'n' {
        Some(kind_side(PieceByte::KNIGHT, Parity::BLACK))
    } else if c == 'N' {
        Some(kind_side(PieceByte::KNIGHT, Parity::WHITE))
    } else if c == 'b' {
        Some(kind_side(PieceByte::BISHOP, Parity::BLACK))
    } else if c == 'B' {
        Some(kind_side(PieceByte::BISHOP, Parity::WHITE))
    } else if c == 'q' {
        Some(kind_side(PieceByte::QUEEN, Parity::BLACK))
    } else if c == 'Q' {
        Some(kind_side(PieceByte::QUEEN, Parity::WHITE))
    } else if c == 'k' {
        Some(kind_side(PieceByte::KING, Parity::BLACK))
    } else if c == 'K' {
        Some(kind_side(PieceByte::KING, Parity::WHITE))
    } else if c == 'p' {
        Some(kind_side(PieceByte::PAWN, Parity::BLACK))
    } else if c == 'P' {
        Some(kind_side(PieceByte::PAWN, Parity::WHITE))
    } else {
        None
    }
}

/// Every piece letter of a position text reads as the piece that the board shows with that
/// same letter: upper case for white, lower case for black, and `K`, `Q`, `R`, `B`, `N`, `P` for
/// king, queen, rook, bishop, knight and pawn; no other character reads as a piece.
pub proof fn lemma_fen_letters_round_trip(c: char)
    ensures
        fen_piece(c) is Some ==> byte_letter(fen_piece(c)->0) == c,
        fen_piece(c) is Some <==> (c == 'K' || c == 'Q' || c == 'R' || c == 'B' || c == 'N' || c == 'P' || c == 'k'
            || c == 'q' || c == 'r' || c == 'b' || c == 'n' || c == 'p'),
        fen_piece(c) is Some ==> (byte_is_white(fen_piece(c)->0) <==> (c == 'K' || c == 'Q' || c == 'R' || c == 'B'
            || c == 'N' || c == 'P')),
{
    crate::ui::lemma_white_piece_bytes();
}

/// The square counter and board after reading the first `n` characters of the board field.
pub open spec fn fen_scan(s: Seq<char>, n: int) -> (int, Seq<u8>)
    decreases n,
{
    if n <= 0 {
        (0, Seq::new(64, |i: int| 0u8))
    } else {
        let prev = fen_scan(s, n - 1);
        let c = s[n - 1];
        if c == '/' {
            prev
        } else if '0' <= c <= '9' {
            (prev.0 + (c as int - '0' as int), prev.1)
        } else {
            (
                prev.0 + 1,
                match fen_piece(c) {
                    Some(p) => prev.1.update(prev.0, p | side_bits(prev.0)),
                    None => prev.1,
                },
            )
        }
    }
}

/// The first position at or after `i` that holds a space; the length when there is none.
pub open spec fn next_space(s: Seq<char>, i: int) -> int
    decreases s.len() - i,
{
    if i >= s.len() {
        s.len() as int
    } else if s[i] == ' ' {
        i
    } else {
        next_space(s, i + 1)
    }
}

/// Where the reading of the board field stops: on the first space, else on the last
/// character (0 for an empty text).
pub open spec fn board_stop(s: Seq<char>) -> int {
    let e = next_space(s, 0);
    if e < s.len() {
        e
    } else if s.len() > 0 {
        s.len() - 1
    } else {
        0
    }
}

/// The board of a position text.
pub open spec fn fen_board(s: Seq<char>) -> Seq<u8> {
    fen_scan(s, next_space(s, 0)).1
}

/// The castling bits of a letter: `k` 1, `q` 2, `K` 4, `Q` 8.
pub open spec fn castle_bit(c: char) -> u8 {
    if c == 'k' {
        1u8
    } else if c == 'q' {
        2u8
    } else if c == 'K' {
        4u8
    } else if c == 'Q' {
        8u8
    } else {
        0u8
    }
}

/// The castling rights read from positions `from..to`.
pub open spec fn castle_bits(s: Seq<char>, from: int, to: int) -> u8
    decreases to - from,
{
    if to <= from {
        0u8
    } else {
        castle_bits(s, from, to - 1) | castle_bit(s[to - 1])
    }
}

/// Where the castling field starts.
pub open spec fn castle_start(s: Seq<char>) -> int {
    board_stop(s) + 3
}

/// Where the castling field ends.
pub open spec fn castle_end(s: Seq<char>) -> int {
    if castle_start(s) >= s.len() {
        castle_start(s)
    } else {
        next_space(s, castle_start(s))
    }
}

/// Where the en-passant field starts.
pub open spec fn passant_start(s: Seq<char>) -> int {
    castle_end(s) + 1
}

/// Whether the en-passant field is a dash.
pub open spec fn passant_dash(s: Seq<char>) -> bool {
    passant_start(s) < s.len() && s[passant_start(s)] == '-'
}

/// Where the move counters start.
pub open spec fn counters_start(s: Seq<char>) -> int {
    if passant_dash(s) {
        passant_start(s) + 2
    } else {
        passant_start(s) + 3
    }
}

/// The square named by the two bytes at byte position `p`: two ASCII characters give the
/// column of the first (its code minus that of `'a'`) and the row of the second (its digit, 1
/// when it is no digit); a two-byte character gives the column of its code point and row 1.
pub open spec fn passant_point(b: Seq<u8>, p: int) -> Point {
    if b[p] < 0x80u8 {
        Point {
            x: (b[p] as int - 97) as i32,
            y: if 48 <= b[p + 1] <= 57 { (b[p + 1] - 48) as i32 } else { 1i32 },
        }
    } else {
        Point { x: (vstd::utf8::codepoint_width_2(b[p], b[p + 1]) as int - 97) as i32, y: 1i32 }
    }
}

/// The en-passant mask: empty for a dash, else the square of the two bytes that start at the
/// en-passant field's character position, taken as a byte position.
pub open spec fn fen_passant(s: Seq<char>) -> u64 {
    if passant_dash(s) {
        0u64
    } else {
        let p = passant_point(encode_utf8(s), passant_start(s));
        point_mask(p.x as int, p.y as int)
    }
}

/// The first byte position at or after `i` that holds a space; the length when there is none.
pub open spec fn byte_space(b: Seq<u8>, i: int) -> int
    decreases b.len() - i,
{
    if i >= b.len() {
        b.len() as int
    } else if b[i] == 32u8 {
        i
    } else {
        byte_space(b, i + 1)
    }
}

/// The decimal value of a string of digit bytes.
pub open spec fn digits_value(t: Seq<u8>) -> int
    decreases t.len(),
{
    if t.len() == 0 {
        0
    } else {
        digits_value(t.drop_last()) * 10 + (t.last() as int - 48)
    }
}

/// Whether a byte is a decimal digit.
pub open spec fn is_digit_byte(c: u8) -> bool {
    48 <= c <= 57
}

/// The number that a field gives as an unsigned 64-bit integer: an optional `+` followed by at
/// least one digit, and a value that fits; `None` otherwise (a byte of a character that is not
/// ASCII is no digit).
pub open spec fn parse_number(t: Seq<u8>) -> Option<u64> {
    digits_number(if t.len() > 0 && t[0] == 43u8 { t.drop_first() } else { t })
}

/// The number that a string of at least one digit gives when it fits in 64 bits.
pub open spec fn digits_number(d: Seq<u8>) -> Option<u64> {
    if d.len() > 0 && (forall|i: int| 0 <= i < d.len() ==> #[trigger] is_digit_byte(d[i])) && digits_value(d)
        <= u64::MAX {
        Some(digits_value(d) as u64)
    } else {
        None
    }
}

/// An en-passant field of a column letter `a` to `h` and a digit names the square whose column
/// counts from `a` and whose row is the digit.
pub proof fn lemma_passant_letters(b: Seq<u8>, p: int, col: int, digit: int)
    requires
        0 <= p,
        p + 2 <= b.len(),
        0 <= col < 8,
        0 <= digit < 10,
        b[p] == 97 + col,
        b[p + 1] == 48 + digit,
    ensures
        passant_point(b, p) == (Point { x: col as i32, y: digit as i32 }),
{
}

/// A counter field of one or two decimal digits, with or without a leading `+`, reads as its
/// decimal value; a field with a byte that is no digit after the sign reads as no number.
pub proof fn lemma_counter_digits(d1: int, d2: int, c: u8)
    requires
        0 <= d1 < 10,
        0 <= d2 < 10,
        !(48 <= c <= 57),
    ensures
        parse_number(seq![(48 + d1) as u8]) == Some(d1 as u64),
        parse_number(seq![(48 + d1) as u8, (48 + d2) as u8]) == Some((10 * d1 + d2) as u64),
        parse_number(seq![43u8, (48 + d1) as u8, (48 + d2) as u8]) == Some((10 * d1 + d2) as u64),
        parse_number(seq![(48 + d1) as u8, c]) is None,
        parse_number(Seq::<u8>::empty()) is None,
{
    let one = seq![(48 + d1) as u8];
    let two = seq![(48 + d1) as u8, (48 + d2) as u8];
    let signed = seq![43u8, (48 + d1) as u8, (48 + d2) as u8];
    assert(((48 + d1) as u8) as int == 48 + d1);
    assert(((48 + d2) as u8) as int == 48 + d2);
    assert(one.drop_last() =~= Seq::<u8>::empty());
    assert(digits_value(Seq::<u8>::empty()) == 0);
    assert(digits_value(one) == d1);
    assert(two.drop_last() =~= one);
    assert(digits_value(two) == 10 * d1 + d2);
    assert(forall|i: int| 0 <= i < one.len() ==> #[trigger] is_digit_byte(one[i]));
    assert(forall|i: int| 0 <= i < two.len() ==> #[trigger] is_digit_byte(two[i]));
    assert(one[0] != 43u8 && two[0] != 43u8);
    assert(parse_number(one) == digits_number(one));
    assert(parse_number(two) == digits_number(two));
    assert(signed.drop_first() =~= two);
    assert(parse_number(signed) == digits_number(two));
    assert(!is_digit_byte(seq![(48 + d1) as u8, c][1]));
}

/// The half-move clock: the bytes from the counters' position (a character position taken
/// as a byte position) up to the next space, 0 when they are no number.
pub open spec fn fen_halfmove(s: Seq<char>) -> u64 {
    let b = encode_utf8(s);
    let q = counters_start(s);
    match parse_number(b.subrange(q, byte_space(b, q))) {
        Some(v) => v,
        None => 0,
    }
}

/// The full-move number: the next field, 1 when it is missing or no number.
pub open spec fn fen_fullmove(s: Seq<char>) -> u64 {
    let b = encode_utf8(s);
    let q = counters_start(s);
    let f = byte_space(b, q);
    if f < b.len() {
        match parse_number(b.subrange(f + 1, byte_space(b, f + 1))) {
            Some(v) => v,
            None => 1,
        }
    } else {
        1
    }
}

/// The side to move: white for `w`, black for anything else.
pub open spec fn fen_turn(s: Seq<char>) -> Parity {
    if s[board_stop(s) + 1] == 'w' {
        Parity::WHITE
    } else {
        Parity::BLACK
    }
}

/// Every piece letter of the board field lands on one of the 64 squares.
pub open spec fn fen_board_fits(s: Seq<char>) -> bool {
    forall|i: int| 0 <= i < next_space(s, 0) && #[trigger] fen_piece(s[i]) is Some ==> fen_scan(s, i).0 < 64
}

/// The castling field is read without running past the characters while the byte length
/// goes on: its start lies past the bytes, or it lies within the characters and ends on a
/// space or at the end of a text whose bytes are its characters.
pub open spec fn castles_read(s: Seq<char>) -> bool {
    let st = castle_start(s);
    ||| st >= encode_utf8(s).len()
    ||| (st < s.len() && (next_space(s, st) < s.len() || s.len() == encode_utf8(s).len()))
}

/// The texts that `init` reads without a panic: at most `isize::MAX` bytes (no longer text can
/// exist); a square count of the board field that fits in `usize`; every piece letter of the
/// board field on one of the 64 squares; a character after the board field; a castling field
/// read as `castles_read` says; an en-passant field that is a dash or whose two bytes (at its
/// character position taken as a byte position) start and end on character boundaries; move
/// counters whose byte position is a character boundary; and a king of each colour.
pub open spec fn fen_loads(s: Seq<char>) -> bool {
    let b = encode_utf8(s);
    &&& b.len() <= isize::MAX
    &&& fen_scan(s, next_space(s, 0)).0 <= usize::MAX
    &&& fen_board_fits(s)
    &&& board_stop(s) + 1 < s.len()
    &&& castles_read(s)
    &&& passant_dash(s) || (passant_start(s) + 2 <= b.len() && is_char_boundary(b, passant_start(s))
        && is_char_boundary(b, passant_start(s) + 2))
    &&& counters_start(s) <= b.len() && is_char_boundary(b, counters_start(s))
    &&& kings_of(fen_board(s)).0 != 65
    &&& kings_of(fen_board(s)).1 != 65
}

/// The side bits of a piece set on square `index`.
fn get_king_or_queenside(index: usize) -> (r: u8)
    ensures
        r == side_bits(index as int),
{
    let modded = index % 8;
    if modded < 4 {
        0b01000000u8
    } else if modded > 4 {
        0b00100000u8
    } else {
        0b00000000u8
    }
}

/// Skipping characters that are no space leaves the next space where it was.
proof fn lemma_next_space_skip(s: Seq<char>, i: int, j: int)
    requires
        0 <= i <= j <= s.len(),
        forall|k: int| i <= k < j ==> s[k] != ' ',
    ensures
        next_space(s, i) == next_space(s, j),
    decreases j - i,
{
    if i < j {
        lemma_next_space_skip(s, i + 1, j);
    }
}

/// The next space lies at or after `i`, within the text.
proof fn lemma_next_space_range(s: Seq<char>, i: int)
    requires
        0 <= i,
    ensures
        i <= next_space(s, i) || (i > s.len() && next_space(s, i) == s.len()),
        next_space(s, i) <= s.len(),
        next_space(s, i) < s.len() ==> s[next_space(s, i)] == ' ',
        forall|k: int| i <= k < next_space(s, i) ==> s[k] != ' ',
    decreases s.len() - i,
{
    if i < s.len() && s[i] != ' ' {
        lemma_next_space_range(s, i + 1);
    }
}

/// The kind and colour bits of a piece letter.
fn fen_piece_byte(c: char) -> (r: Option<u8>)
    ensures
        r == fen_piece(c),
{
    if c == 'r' {
        Some(PieceByte::ROOK.with_parity(Parity::BLACK))
    } else if c == 'R' {
        Some(PieceByte::ROOK.with_parity(Parity::WHITE))
    } else if c == 'n' {
        Some(PieceByte::KNIGHT.with_parity(Parity::BLACK))
    } else if c == 'N' {
        Some(PieceByte::KNIGHT.with_parity(Parity::WHITE))
    } else if c == 'b' {
        Some(PieceByte::BISHOP.with_parity(Parity::BLACK))
    } else if c == 'B' {
        Some(PieceByte::BISHOP.with_parity(Parity::WHITE))
    } else if c == 'q' {
        Some(PieceByte::QUEEN.with_parity(Parity::BLACK))
    } else if c == 'Q' {
        Some(PieceByte::QUEEN.with_parity(Parity::WHITE))
    } else if c == 'k' {
        Some(PieceByte::KING.with_parity(Parity::BLACK))
    } else if c == 'K' {
        Some(PieceByte::KING.with_parity(Parity::WHITE))
    } else if c == 'p' {
        Some(PieceByte::PAWN.with_parity(Parity::BLACK))
    } else if c == 'P' {
        Some(PieceByte::PAWN.with_parity(Parity::WHITE))
    } else {
        None
    }
}

/// Counting squares only grows as more of the board field is read.
proof fn lemma_scan_grows(s: Seq<char>, i: int, j: int)
    requires
        0 <= i <= j,
    ensures
        fen_scan(s, i).0 <= fen_scan(s, j).0,
    decreases j - i,
{
    if i < j {
        lemma_scan_grows(s, i, j - 1);
    }
}

/// A text has at least as many bytes as characters.
proof fn lemma_encode_len(s: Seq<char>)
    ensures
        s.len() <= encode_utf8(s).len(),
    decreases s.len(),
{
    if s.len() > 0 {
        lemma_encode_len(s.drop_first());
        assert(vstd::utf8::encode_scalar(s[0] as u32).len() >= 1);
    }
}

/// Past a character that is no space, the next space is further on.
proof fn lemma_next_space_step(s: Seq<char>, i: int)
    requires
        0 <= i < s.len(),
        s[i] != ' ',
    ensures
        next_space(s, i) == next_space(s, i + 1),
        i + 1 <= next_space(s, i),
{
    lemma_next_space_range(s, i + 1);
}

/// Read the board field onto an empty board; gives where the reading stopped.
fn scan_board(fen: &str, board: &mut [u8; 64]) -> (r: usize)
    requires
        fen_board_fits(fen@),
        fen_scan(fen@, next_space(fen@, 0)).0 <= usize::MAX,
        old(board)@ == Seq::new(64, |i: int| 0u8),
    ensures
        final(board)@ == fen_board(fen@),
        r == board_stop(fen@),
{
    let ghost s = fen@;
    let n = fen.unicode_len();
    let mut b_index: usize = 0;
    let mut index: usize = 0;
    let mut i: usize = 0;
    proof {
        lemma_next_space_range(s, 0);
        assert(board@ =~= fen_scan(s, 0).1);
    }
    while i < n
        invariant_except_break
            i <= next_space(s, 0),
            forall|k: int| 0 <= k < i ==> s[k] != ' ',
            index == (if i == 0 { 0 } else { i - 1 }),
        invariant
            s == fen@,
            n == s.len(),
            fen_board_fits(s),
            fen_scan(s, next_space(s, 0)).0 <= usize::MAX,
            i <= n,
            b_index as int == fen_scan(s, i as int).0,
            board@ == fen_scan(s, i as int).1,
            forall|k: int| 0 <= k < next_space(s, 0) ==> s[k] != ' ',
            next_space(s, 0) <= s.len(),
            next_space(s, 0) < s.len() ==> s[next_space(s, 0)] == ' ',
        ensures
            (i < n && s[i as int] == ' ' && index == i) || (i == n && index == (if n == 0 { 0 } else { n - 1 })),
            forall|k: int| 0 <= k < i ==> s[k] != ' ',
            b_index as int == fen_scan(s, i as int).0,
            board@ == fen_scan(s, i as int).1,
        decreases n - i,
    {
        let c = fen.get_char(i);
        index = i;
        if c == ' ' {
            break;
        }
        proof {
            if i == next_space(s, 0) {
                assert(s[i as int] == ' ');
            }
            lemma_scan_grows(s, i + 1, next_space(s, 0));
        }
        if c == '/' {
            i = i + 1;
            continue;
        }
        if '0' <= c && c <= '9' {
            b_index = b_index + ((c as u32 - '0' as u32) as usize);
        } else {
            match fen_piece_byte(c) {
                Some(p) => {
                    proof {
                        assert(fen_piece(s[i as int]) is Some);
                    }
                    board[b_index] = p | get_king_or_queenside(b_index);
                },
                None => {},
            }
            b_index = b_index + 1;
        }
        i = i + 1;
    }
    proof {
        if i < n {
            lemma_next_space_skip(s, 0, i as int);
        } else {
            lemma_next_space_skip(s, 0, n as int);
        }
    }
    index
}

/// Read the castling rights of the castling field; gives them and where the field ends. Like
/// the reading it stands for, the loop runs while the position is below the byte length.
fn scan_castles(fen: &str, n: usize, blen: usize, from: usize) -> (r: (u8, usize))
    requires
        n == fen@.len(),
        blen == encode_utf8(fen@).len(),
        n <= blen,
        from == castle_start(fen@),
        castles_read(fen@),
    ensures
        r.1 == castle_end(fen@),
        r.0 == castle_bits(fen@, from as int, r.1 as int),
{
    let ghost s = fen@;
    let mut castles: u8 = 0;
    let mut index = from;
    proof {
        if from < n {
            lemma_next_space_range(s, from as int);
        }
    }
    while index < blen && fen.get_char(index) != ' '
        invariant
            s == fen@,
            n == s.len(),
            blen == encode_utf8(s).len(),
            n <= blen,
            from == castle_start(s),
            castles_read(s),
            from <= index,
            from >= blen ==> index == from,
            from < blen ==> from < n && index <= next_space(s, from as int) && next_space(s, from as int)
                == next_space(s, index as int) && next_space(s, from as int) <= n,
            castles == castle_bits(s, from as int, index as int),
        decreases blen - index,
    {
        let c = fen.get_char(index);
        proof {
            lemma_next_space_step(s, index as int);
        }
        let bit: u8 = if c == 'k' {
            0b00000001
        } else if c == 'q' {
            0b00000010
        } else if c == 'K' {
            0b00000100
        } else if c == 'Q' {
            0b00001000
        } else {
            0
        };
        castles = castles | bit;
        index = index + 1;
    }
    (castles, index)
}

/// Reading the digits of a field one more at a time only makes its value grow.
proof fn lemma_digits_grow(t: Seq<u8>, j: int, k: int)
    requires
        0 <= j <= k <= t.len(),
        forall|i: int| 0 <= i < t.len() ==> #[trigger] is_digit_byte(t[i]),
    ensures
        digits_value(t.subrange(0, j)) <= digits_value(t.subrange(0, k)),
        0 <= digits_value(t.subrange(0, j)),
    decreases k,
{
    if k > j {
        lemma_digits_grow(t, j, k - 1);
        assert(t.subrange(0, k).drop_last() =~= t.subrange(0, k - 1));
        assert(is_digit_byte(t[k - 1]));
    } else if j > 0 {
        lemma_digits_grow(t, 0, j - 1);
        lemma_digits_grow(t, j - 1, j - 1);
        assert(t.subrange(0, j).drop_last() =~= t.subrange(0, j - 1));
        assert(is_digit_byte(t[j - 1]));
    }
}

/// The number of the field at byte `from`, up to the next space, and where the field ends.
fn parse_field(b: &[u8], from: usize) -> (r: (Option<u64>, usize))
    requires
        from <= b@.len(),
    ensures
        r.1 == byte_space(b@, from as int),
        r.0 == parse_number(b@.subrange(from as int, r.1 as int)),
{
    let ghost s = b@;
    let n = b.len();
    let mut e = from;
    while e < n && b[e] != 32u8
        invariant
            s == b@,
            n == s.len(),
            from <= e <= n,
            byte_space(s, from as int) == byte_space(s, e as int),
        decreases n - e,
    {
        e = e + 1;
    }
    let ghost t = s.subrange(from as int, e as int);
    let mut a = from;
    if a < e && b[a] == 43u8 {
        a = a + 1;
    }
    let ghost d = s.subrange(a as int, e as int);
    proof {
        assert(t.len() == e - from);
        if from < e {
            assert(t[0] == s[from as int]);
        }
        if from < e && s[from as int] == 43u8 {
            assert(d =~= t.drop_first());
        } else {
            assert(d =~= t);
        }
        assert(parse_number(t) == digits_number(d));
    }
    if a == e {
        return (None, e);
    }
    let mut v: u64 = 0;
    let mut k = a;
    while k < e
        invariant
            s == b@,
            from <= a < e <= n,
            n == s.len(),
            a <= k <= e,
            e == byte_space(s, from as int),
            t == s.subrange(from as int, e as int),
            d == s.subrange(a as int, e as int),
            d.len() > 0,
            parse_number(t) == digits_number(d),
            forall|i: int| 0 <= i < k - a ==> #[trigger] is_digit_byte(d[i]),
            v == digits_value(d.subrange(0, k - a)),
        decreases e - k,
    {
        let c = b[k];
        proof {
            assert(d[k - a] == c);
            assert(d.subrange(0, k - a + 1).drop_last() =~= d.subrange(0, k - a));
        }
        if !(48u8 <= c && c <= 57u8) {
            proof {
                assert(!is_digit_byte(d[k - a]));
            }
            return (None, e);
        }
        let digit = (c - 48u8) as u64;
        let next = match v.checked_mul(10) {
            Some(m) => m.checked_add(digit),
            None => None,
        };
        match next {
            Some(nv) => {
                v = nv;
            },
            None => {
                proof {
                    assert(digits_value(d.subrange(0, k - a + 1)) > u64::MAX);
                    if forall|i: int| 0 <= i < d.len() ==> #[trigger] is_digit_byte(d[i]) {
                        lemma_digits_grow(d, k - a + 1, d.len() as int);
                        assert(d.subrange(0, d.len() as int) =~= d);
                    }
                }
                return (None, e);
            },
        }
        k = k + 1;
    }
    proof {
        assert(d.subrange(0, k - a) =~= d);
    }
    (Some(v), e)
}

/// The square named by the two bytes at `p`, as `passant_point` reads it.
fn passant_point_of(b: &[u8], p: usize) -> (r: Point)
    requires
        p + 2 <= b@.len(),
    ensures
        r == passant_point(b@, p as int),
{
    let b0 = b[p];
    let b1 = b[p + 1];
    if b0 < 0x80u8 {
        let y: i32 = if 48u8 <= b1 && b1 <= 57u8 {
            (b1 - 48u8) as i32
        } else {
            1
        };
        Point { x: b0 as i32 - 97, y }
    } else {
        let code: u32 = (((b0 & 0x1Fu8) as u32) << 6u32) | ((b1 & 0x3Fu8) as u32);
        proof {
            assert(code <= 0x7ff) by (bit_vector)
                requires
                    code == (((b0 & 0x1Fu8) as u32) << 6u32) | ((b1 & 0x3Fu8) as u32),
            ;
        }
        Point { x: code as i32 - 97, y: 1 }
    }
}

/// The retained state that a position text sets before the position is set up: castling
/// rights, en-passant mask and move counters from the text, the rest as by default.
pub open spec fn fen_info(s: Seq<char>, info: RetainedStateInfo) -> bool {
    &&& info.allowed_castles == castle_bits(s, castle_start(s), castle_end(s))
    &&& info.enpassant_mask.raw == fen_passant(s)
    &&& info.halfmove_clock == fen_halfmove(s)
    &&& info.fullmove_number == fen_fullmove(s)
    &&& info.king_indices@ == seq![65usize, 65usize]
    &&& info.zkey == 0
    &&& info.maskset.white.raw == 0 && info.maskset.black.raw == 0 && info.maskset.all.raw == 0
}

/// Whether a state is the position of a text, set up: its board and side to move from the
/// text, no move made yet, and the retained state set up from the text's with fresh key tables
/// and empty caches.
pub open spec fn loaded(st: &State, s: Seq<char>) -> bool {
    &&& st.turn == fen_turn(s)
    &&& st.history().len() == 0
    &&& st.wf()
    &&& exists|z: Zobrist, info0: RetainedStateInfo, info: RetainedStateInfo|
        #![trigger fen_info(s, info0), initialised(&z, fen_board(s), fen_turn(s), info0, info)]
        {
            &&& z.cache_keys() == Set::<u64>::empty()
            &&& fen_info(s, info0)
            &&& initialised(&z, fen_board(s), fen_turn(s), info0, info)
            &&& settled(st, fen_board(s), info, Map::<u64, MotionSet>::empty(), z)
        }
}

/// The first position of a list whose move goes to `to`; the length when there is none.
pub open spec fn first_to(l: Seq<Motion>, to: usize) -> int {
    if exists|k: int| 0 <= k < l.len() && #[trigger] l[k].to == to {
        choose|k: int| 0 <= k < l.len() && l[k].to == to && forall|j: int| 0 <= j < k ==> #[trigger] l[j].to != to
    } else {
        l.len() as int
    }
}

/// The moves of the side to move (black's for any side but white) from square `i`.
pub open spec fn turn_moves(st: &State, i: int) -> Seq<Motion> {
    if st.turn == Parity::WHITE {
        st.moves.white_moves@[i]@
    } else {
        st.moves.black_moves@[i]@
    }
}

/// A game: the position, the selected square (65 for none), whether it is over, the side the
/// person at the board plays, whether play is paused, and the weights shown on the board.
pub struct ChessGame {
    pub selected: usize,
    pub state: State,
    pub game_over: bool,
    pub human_player: Parity,
    pub paused: bool,
    pub visual_weights: Option<[i32; 64]>,
}

/// Whether every piece letter of the board field lands on the board and the square count of
/// the field fits in `usize`.
fn board_fits(fen: &str, n: usize) -> (r: bool)
    requires
        n == fen@.len(),
    ensures
        r == (fen_board_fits(fen@) && fen_scan(fen@, next_space(fen@, 0)).0 <= usize::MAX),
{
    let ghost s = fen@;
    let mut b: usize = 0;
    let mut i: usize = 0;
    proof {
        lemma_next_space_range(s, 0);
    }
    while i < n && fen.get_char(i) != ' '
        invariant
            s == fen@,
            n == s.len(),
            i <= n,
            b as int == fen_scan(s, i as int).0,
            forall|k: int| 0 <= k < i ==> s[k] != ' ',
            forall|k: int| 0 <= k < i && #[trigger] fen_piece(s[k]) is Some ==> fen_scan(s, k).0 < 64,
        decreases n - i,
    {
        let c = fen.get_char(i);
        proof {
            lemma_next_space_skip(s, 0, i as int);
            lemma_next_space_step(s, i as int);
            lemma_scan_grows(s, i + 1, next_space(s, 0));
        }
        if c == '/' {
        } else if '0' <= c && c <= '9' {
            match b.checked_add((c as u32 - '0' as u32) as usize) {
                Some(v) => {
                    b = v;
                },
                None => {
                    return false;
                },
            }
        } else {
            if fen_piece_byte(c).is_some() && b >= 64 {
                proof {
                    assert(i < next_space(s, 0));
                    assert(fen_piece(s[i as int]) is Some);
                }
                return false;
            }
            match b.checked_add(1) {
                Some(v) => {
                    b = v;
                },
                None => {
                    return false;
                },
            }
        }
        i = i + 1;
    }
    proof {
        lemma_next_space_skip(s, 0, i as int);
        lemma_next_space_range(s, i as int);
        assert(next_space(s, 0) == i);
    }
    true
}

/// The first space at or after `from` among the characters; the length when there is none.
fn char_space(fen: &str, n: usize, from: usize) -> (r: usize)
    requires
        n == fen@.len(),
        from <= n,
    ensures
        r == next_space(fen@, from as int),
{
    let ghost s = fen@;
    let mut e = from;
    while e < n && fen.get_char(e) != ' '
        invariant
            s == fen@,
            n == s.len(),
            from <= e <= n,
            next_space(s, from as int) == next_space(s, e as int),
        decreases n - e,
    {
        e = e + 1;
    }
    e
}

/// Whether `init` can read a position text: the text is what `fen_loads` describes.
pub fn fen_loads_check(fen: &str) -> (r: bool)
    ensures
        r == fen_loads(fen@),
{
    let ghost s = fen@;
    let bytes = fen.as_bytes();
    let blen = bytes.len();
    let n = fen.unicode_len();
    proof {
        lemma_encode_len(s);
    }
    if blen > isize::MAX as usize {
        return false;
    }
    if !board_fits(fen, n) {
        return false;
    }
    let mut board: [u8; 64] = [0u8; 64];
    proof {
        assert(board@ =~= Seq::new(64, |i: int| 0u8));
    }
    let stop = scan_board(fen, &mut board);
    if stop + 1 >= n {
        return false;
    }
    let start = stop + 3;
    let cend = if start >= n {
        if start < blen {
            return false;
        }
        start
    } else {
        let e = char_space(fen, n, start);
        proof {
            lemma_next_space_range(s, start as int);
        }
        if e >= n && n != blen {
            return false;
        }
        e
    };
    assert(cend <= n + 2 && n <= blen && blen <= isize::MAX);
    let ps = cend + 1;
    let dash = ps < n && fen.get_char(ps) == '-';
    if !dash && !(ps + 2 <= blen && fen.is_char_boundary(ps) && fen.is_char_boundary(ps + 2)) {
        return false;
    }
    let counters = if dash {
        ps + 2
    } else {
        ps + 3
    };
    if !(counters <= blen && fen.is_char_boundary(counters)) {
        return false;
    }
    let kings = board.get_kings();
    kings[0] != 65 && kings[1] != 65
}

/// The bit arithmetic of castling rights: a bit of a union is in one of the parts, and the bits
/// of the four castling letters' codes.
proof fn lemma_castle_bit_facts(a: u8, b: u8)
    by (bit_vector)
    ensures
        ((a | b) & 1u8 != 0) == (a & 1u8 != 0 || b & 1u8 != 0),
        ((a | b) & 2u8 != 0) == (a & 2u8 != 0 || b & 2u8 != 0),
        ((a | b) & 4u8 != 0) == (a & 4u8 != 0 || b & 4u8 != 0),
        ((a | b) & 8u8 != 0) == (a & 8u8 != 0 || b & 8u8 != 0),
        1u8 & 1u8 != 0 && 1u8 & 2u8 == 0 && 1u8 & 4u8 == 0 && 1u8 & 8u8 == 0,
        2u8 & 1u8 == 0 && 2u8 & 2u8 != 0 && 2u8 & 4u8 == 0 && 2u8 & 8u8 == 0,
        4u8 & 1u8 == 0 && 4u8 & 2u8 == 0 && 4u8 & 4u8 != 0 && 4u8 & 8u8 == 0,
        8u8 & 1u8 == 0 && 8u8 & 2u8 == 0 && 8u8 & 4u8 == 0 && 8u8 & 8u8 != 0,
        0u8 & 1u8 == 0 && 0u8 & 2u8 == 0 && 0u8 & 4u8 == 0 && 0u8 & 8u8 == 0,
{
}

/// The castling rights read from a field: white's kingside bit `0b0100` (the bit that
/// `white_kingside_can_castle` reads) is set exactly when the field holds a `K`, white's
/// queenside bit `0b1000` exactly when it holds a `Q`, black's kingside bit `0b0001` exactly
/// when it holds a `k`, and black's queenside bit `0b0010` exactly when it holds a `q`.
pub proof fn lemma_castle_letters(s: Seq<char>, from: int, to: int)
    ensures
        (castle_bits(s, from, to) & 0b0100u8 != 0) == exists|k: int| from <= k < to && #[trigger] s[k] == 'K',
        (castle_bits(s, from, to) & 0b1000u8 != 0) == exists|k: int| from <= k < to && #[trigger] s[k] == 'Q',
        (castle_bits(s, from, to) & 0b0001u8 != 0) == exists|k: int| from <= k < to && #[trigger] s[k] == 'k',
        (castle_bits(s, from, to) & 0b0010u8 != 0) == exists|k: int| from <= k < to && #[trigger] s[k] == 'q',
    decreases to - from,
{
    lemma_castle_bit_facts(0u8, 0u8);
    if to > from {
        lemma_castle_letters(s, from, to - 1);
        let c = s[to - 1];
        lemma_castle_bit_facts(castle_bits(s, from, to - 1), castle_bit(c));
        assert(castle_bits(s, from, to) == castle_bits(s, from, to - 1) | castle_bit(c));
        if c == 'K' {
            assert(s[to - 1] == 'K');
        } else if c == 'Q' {
            assert(s[to - 1] == 'Q');
        } else if c == 'k' {
            assert(s[to - 1] == 'k');
        } else if c == 'q' {
            assert(s[to - 1] == 'q');
        }
    }
}

/// The castling rights read from a field use only the four castling bits.
proof fn lemma_castle_bits_small(s: Seq<char>, from: int, to: int)
    ensures
        castle_bits(s, from, to) < 16,
    decreases to - from,
{
    if to > from {
        lemma_castle_bits_small(s, from, to - 1);
        let a = castle_bits(s, from, to - 1);
        let b = castle_bit(s[to - 1]);
        assert(b < 16);
        assert(a < 16 && b < 16 ==> (a | b) < 16) by (bit_vector);
    }
}

impl ChessGame {
    /// A game set up from a position text; nothing selected, not over, no side for a person,
    /// not paused, all weights shown 0.
    pub fn init(fen: String) -> (r: ChessGame)
        requires
            fen_loads(fen@),
        ensures
            loaded(&r.state, fen@),
            r.selected == 65,
            !r.game_over,
            r.human_player == Parity::NONE,
            !r.paused,
            r.visual_weights is Some,
            r.visual_weights->0@ == Seq::new(64, |i: int| 0i32),
    {
        let ghost s = fen@;
        let mut state = State::default();
        let ghost z = state.zobrist;
        let text = fen.as_str();
        let n = text.unicode_len();
        let bytes = text.as_bytes();
        let blen = bytes.len();
        proof {
            lemma_encode_len(s);
        }
        let index = scan_board(text, &mut state.board);
        state.turn = if text.get_char(index + 1) == 'w' {
            Parity::WHITE
        } else {
            Parity::BLACK
        };
        let (castles, cend) = scan_castles(text, n, blen, index + 3);
        state.info.allowed_castles = state.info.allowed_castles | castles;
        proof {
            assert((0u8 | castles) == castles) by (bit_vector);
            lemma_castle_bits_small(s, castle_start(s), castle_end(s));
        }
        let mut p = cend + 1;
        if p < n && text.get_char(p) == '-' {
            p = p + 2;
        } else {
            state.info.enpassant_mask = Mask::from_point(passant_point_of(bytes, p));
            p = p + 3;
        }
        let (half, e1) = parse_field(bytes, p);
        state.info.halfmove_clock = match half {
            Some(v) => v,
            None => 0,
        };
        state.info.fullmove_number = if e1 < blen {
            match parse_field(bytes, e1 + 1).0 {
                Some(v) => v,
                None => 1,
            }
        } else {
            1
        };
        let ghost info0 = state.info;
        let ghost st0 = state;
        proof {
            assert(fen_info(s, info0));
            assert(st0.board@ == fen_board(s));
        }
        state.init();
        let weights: [i32; 64] = [0i32; 64];
        proof {
            let info = choose|info: RetainedStateInfo|
                #![trigger initialised(&st0.zobrist, st0.board@, st0.turn, st0.info, info)]
                initialised(&st0.zobrist, st0.board@, st0.turn, st0.info, info) && settled(
                    &state,
                    st0.board@,
                    info,
                    st0.cached_moves@,
                    st0.zobrist,
                );
            assert(st0.cached_moves@ == Map::<u64, MotionSet>::empty());
            assert(fen_info(s, info0) && initialised(&z, fen_board(s), fen_turn(s), info0, info));
            assert(weights@ =~= Seq::new(64, |i: int| 0i32));
        }
        ChessGame {
            selected: 65,
            state,
            game_over: false,
            human_player: Parity::NONE,
            paused: false,
            visual_weights: Some(weights),
        }
    }
}

/// The side a person plays, given the sides of the engine players: none when both sides
/// have one; the other side when one does; both when neither does.
pub open spec fn human_side(p1: Option<Parity>, p2: Option<Parity>) -> Parity {
    match (p1, p2) {
        (Some(_), Some(_)) => Parity::NONE,
        (Some(a), None) => opposite(a),
        (None, Some(b)) => opposite(b),
        (None, None) => Parity::BOTH,
    }
}

/// What a click on square `pos_index` does to the selection when no move is played: with a
/// selection of a piece of the side to move, a piece of that side on the square becomes the
/// selection; without a selection, the square of a piece of the side to move becomes the
/// selection and an empty square clears it.
pub open spec fn selection_after(st: &State, selected: usize, pos_index: usize) -> usize {
    let cur = if selected < 64 { st.board@[selected as int] } else { 0u8 };
    let pin = if pos_index < 64 { st.board@[pos_index as int] } else { 0u8 };
    if cur != 0 && selected != 65 {
        if pin != 0 && pos_index != 65 && byte_parity(pin) == st.turn {
            pos_index
        } else {
            selected
        }
    } else if pin != 0 {
        if byte_parity(pin) == st.turn {
            pos_index
        } else {
            selected
        }
    } else {
        65
    }
}

/// A click on a square that holds a piece of the side to move selects that square, whatever was
/// selected before (when no move is played); with nothing selected, a click on an empty square
/// clears the selection and a click on a piece of the other side leaves it as it was.
pub proof fn lemma_click_selects_own_piece(st: &State, selected: usize, pos_index: usize)
    ensures
        pos_index < 64 && st.board@[pos_index as int] != 0 && byte_parity(st.board@[pos_index as int]) == st.turn
            ==> selection_after(st, selected, pos_index) == pos_index,
        selected >= 64 && pos_index < 64 && st.board@[pos_index as int] == 0 ==> selection_after(
            st,
            selected,
            pos_index,
        ) == 65,
        selected >= 64 && pos_index < 64 && st.board@[pos_index as int] != 0 && byte_parity(
            st.board@[pos_index as int],
        ) != st.turn ==> selection_after(st, selected, pos_index) == selected,
{
}

impl ChessGame {
    /// Record the sides of the engine players (`None` for a side a person plays) and set the
    /// side of the person accordingly.
    pub fn register_players(&mut self, p1: Option<Parity>, p2: Option<Parity>)
        ensures
            final(self).human_player == human_side(p1, p2),
            final(self).selected == old(self).selected,
            final(self).state == old(self).state,
            final(self).game_over == old(self).game_over,
            final(self).paused == old(self).paused,
            final(self).visual_weights == old(self).visual_weights,
    {
        self.human_player = match (p1, p2) {
            (Some(_), Some(_)) => Parity::NONE,
            (Some(a), None) => a.not(),
            (None, Some(b)) => b.not(),
            (None, None) => Parity::BOTH,
        };
    }

    /// A click of the person playing `player_parity` on square `pos`. When it is that side's
    /// turn (or the person plays both): with a piece of the side to move selected, the first
    /// of its moves that goes to the clicked square is made (when it fits on the board) and the
    /// selection cleared; otherwise the selection follows the click.
    pub fn human_input(&mut self, pos: Point, player_parity: Parity)
        requires
            old(self).state.wf(),
            i32::MIN <= pos.y * 8 <= i32::MAX,
            i32::MIN <= pos.y * 8 + pos.x <= i32::MAX,
        ensures
            final(self).state.wf(),
            final(self).game_over == old(self).game_over,
            final(self).human_player == old(self).human_player,
            final(self).paused == old(self).paused,
            final(self).visual_weights == old(self).visual_weights,
            ({
                let st = &old(self).state;
                let sel = old(self).selected;
                let pos_index = square_index(pos.x as int, pos.y as int) as usize;
                let active = player_parity == st.turn || player_parity == Parity::BOTH;
                let cur = if sel < 64 { st.board@[sel as int] } else { 0u8 };
                let moving = active && cur != 0 && sel != 65 && byte_parity(st.board@[sel as int]) == st.turn;
                let l = turn_moves(st, sel as int);
                let listed = (if st.turn == Parity::WHITE {
                    st.moves.white_moves@.len()
                } else {
                    st.moves.black_moves@.len()
                }) > sel;
                let k = first_to(l, pos_index);
                if moving && listed && k < l.len() {
                    &&& final(self).selected == 65
                    &&& if make_ok(st.board@, l[k].from as int, l[k].to as int) {
                        made_motion(st, &final(self).state, l[k])
                    } else {
                        final(self).state == *st
                    }
                } else if !active || (cur != 0 && sel != 65 && !moving) {
                    &&& final(self).selected == sel
                    &&& final(self).state == *st
                } else {
                    &&& final(self).selected == selection_after(st, sel, pos_index)
                    &&& final(self).state == *st
                }
            }),
            ({
                let st = &old(self).state;
                let sel = old(self).selected;
                let pos_index = square_index(pos.x as int, pos.y as int) as usize;
                let l = turn_moves(st, sel as int);
                ((player_parity == st.turn || player_parity == Parity::BOTH) && sel < 64 && st.board@[sel as int] != 0
                    && byte_parity(st.board@[sel as int]) == st.turn && pos_index < 64 && st.board@[pos_index as int]
                    != 0 && byte_parity(st.board@[pos_index as int]) == st.turn && (forall|k: int|
                    0 <= k < l.len() ==> #[trigger] l[k].to != pos_index)) ==> final(self).selected == pos_index
                    && final(self).state == *st
            }),
    {
        if !(player_parity == self.state.turn || player_parity == Parity::BOTH) {
            return;
        }
        let pos_index = pos.to_index();
        let current_selection = self.state.get_piece_at_index(self.selected);
        let piece_at_input = self.state.get_piece_at_index(pos_index);
        if current_selection != 0 && self.selected != 65 {
            if self.state.board[self.selected].get_parity() == self.state.turn {
                let ghost st = self.state;
                let lists = self.state.moves.parity_moves(self.state.turn);
                proof {
                    assert(lists_view(lists).len() == lists@.len());
                    assert(lists_view(st.moves.white_moves).len() == st.moves.white_moves@.len());
                    assert(lists_view(st.moves.black_moves).len() == st.moves.black_moves@.len());
                    assert(lists@.len() == (if st.turn == Parity::WHITE {
                        st.moves.white_moves@.len()
                    } else {
                        st.moves.black_moves@.len()
                    }));
                }
                if self.selected < lists.len() {
                    let moves = copy_list(&lists[self.selected]);
                    proof {
                        assert(lists_view(lists)[self.selected as int] == lists@[self.selected as int]@);
                        assert(moves@ == turn_moves(&st, self.selected as int));
                    }
                    let k = find_to(&moves, pos_index);
                    if k < moves.len() {
                        let m = moves[k];
                        if move_playable(&self.state.board, m.from, m.to) {
                            self.state.make_motion(&m);
                        }
                        self.selected = 65;
                        return;
                    }
                }
                if piece_at_input != 0 && pos_index != 65 && piece_at_input.get_parity() == self.state.turn {
                    self.selected = pos_index;
                }
            }
        } else {
            if piece_at_input != 0 {
                if piece_at_input.get_parity() == self.state.turn {
                    self.selected = pos_index;
                }
            } else {
                self.selected = 65;
            }
        }
    }
}

/// Whether a move can be made on the board: the null move, one from an empty square, or one
/// that fits on it.
pub(crate) fn move_playable(board: &[u8; 64], from: usize, to: usize) -> (r: bool)
    ensures
        r == make_ok(board@, from as int, to as int),
{
    (from == 65 && to == 65) || (from < 64 && !board[from].is_piece()) || move_fits(board, from, to)
}

/// The first position of a list whose move goes to `to`; the length when there is none.
fn find_to(moves: &Vec<Motion>, to: usize) -> (r: usize)
    ensures
        r == first_to(moves@, to),
{
    let ghost l = moves@;
    let mut k: usize = 0;
    while k < moves.len()
        invariant
            k <= l.len(),
            l == moves@,
            forall|j: int| 0 <= j < k ==> #[trigger] l[j].to != to,
        decreases l.len() - k,
    {
        if moves[k].to == to {
            proof {
                assert(0 <= k < l.len() && l[k as int].to == to);
                let c = choose|c: int| 0 <= c < l.len() && l[c].to == to && forall|j: int| 0 <= j < c ==> #[trigger] l[j].to != to;
                assert(exists|c: int| 0 <= c < l.len() && l[c].to == to && forall|j: int| 0 <= j < c ==> #[trigger] l[j].to != to) by {
                    assert(forall|j: int| 0 <= j < k ==> #[trigger] l[j].to != to);
                }
                if c < k {
                    assert(l[c].to != to);
                }
                if c > k {
                    assert(l[k as int].to != to);
                }
            }
            return k;
        }
        k = k + 1;
    }
    k
}

} // verus!
