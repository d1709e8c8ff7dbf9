use vstd::prelude::*;
use crate::bits::{bit, single, group_bits, lemma_zero_iff_empty};
use crate::point::{Point, on_board};

verus! {

broadcast use group_bits;

/// A set of board squares: bit `i` stands for square `i` (row `i / 8`, column `i % 8`).
#[derive(Clone, Copy, Debug, PartialEq, Eq, Structural)]
pub struct Mask {
    pub raw: u64,
}

/// The first square at or after `n` that the mask holds; 64 when there is none.
pub open spec fn lowest_from(raw: u64, n: int) -> int
    decreases 64 - n,
{
    if n >= 64 {
        64
    } else if bit(raw, n) {
        n
    } else {
        lowest_from(raw, n + 1)
    }
}

/// The first square that the mask holds; 64 when it is empty.
pub open spec fn lowest(raw: u64) -> int {
    lowest_from(raw, 0)
}

/// The index that `as_index` gives: the first square of the mask, or 0 for the empty mask.
pub open spec fn index_of(raw: u64) -> int {
    if lowest(raw) < 64 {
        lowest(raw)
    } else {
        0
    }
}

/// The squares below `n` that the mask holds, in increasing order.
pub open spec fn squares_upto(raw: u64, n: int) -> Seq<int>
    decreases n,
{
    if n <= 0 {
        Seq::empty()
    } else if bit(raw, n - 1) {
        squares_upto(raw, n - 1).push(n - 1)
    } else {
        squares_upto(raw, n - 1)
    }
}

/// All squares of the mask, in increasing order.
pub open spec fn squares(raw: u64) -> Seq<int> {
    squares_upto(raw, 64)
}

/// The number of squares of the mask.
pub open spec fn popcount(raw: u64) -> nat {
    squares(raw).len()
}

/// The point of a square index.
pub open spec fn square_point(s: int) -> Point {
    Point { x: (s % 8) as i32, y: (s / 8) as i32 }
}

/// The square that row `y` maps to when the board is turned upside down.
pub open spec fn flip_square(s: int) -> int {
    (7 - s / 8) * 8 + s % 8
}

/// `from` shifted left `k` times by `step` bits (bits past the top are lost).
pub open spec fn shifted(from: u64, step: u64, k: nat) -> u64
    decreases k,
{
    if k == 0 {
        from
    } else {
        shifted(from, step, (k - 1) as nat) << step
    }
}

/// The first `k` from `k0` on, up to 9, for which `from` shifted `k` times exceeds `to`;
/// 10 when there is none.
pub open spec fn first_gap(from: u64, to: u64, step: u64, k: nat) -> nat
    decreases 10 - k,
{
    if k > 9 {
        10
    } else if shifted(from, step, k) > to {
        k
    } else {
        first_gap(from, to, step, k + 1)
    }
}

/// The row gap of `get_y_gap`: 0 for equal masks, else the number of one-row shifts of the
/// smaller mask after which it exceeds the larger.
pub open spec fn y_gap(a: u64, b: u64) -> nat {
    if a < b {
        first_gap(a, b, 8, 1)
    } else if a > b {
        first_gap(b, a, 8, 1)
    } else {
        0
    }
}

/// The column gap of `get_x_gap`: the masks are ordered by `raw % 8`; 0 when those agree,
/// else the number of one-bit shifts of the first after which it exceeds the second.
pub open spec fn x_gap(a: u64, b: u64) -> nat {
    if a % 8 < b % 8 {
        first_gap(a, b, 1, 1)
    } else if a % 8 > b % 8 {
        first_gap(b, a, 1, 1)
    } else {
        0
    }
}

/// The text of a mask: a line break, then one line per row, each the eight squares of the
/// row from column 0 to 7 as `'1'` or `'0'`.
pub open spec fn mask_text(raw: u64) -> Seq<char> {
    seq!['\n'] + rows_text(raw, 8)
}

/// The lines of the first `n` rows.
pub open spec fn rows_text(raw: u64, n: int) -> Seq<char>
    decreases n,
{
    if n <= 0 {
        Seq::empty()
    } else {
        rows_text(raw, n - 1) + row_text(raw, n - 1)
    }
}

/// The line of row `i`.
pub open spec fn row_text(raw: u64, i: int) -> Seq<char> {
    cells_text(raw, i, 8).push('\n')
}

/// The first `n` cells of row `i`.
pub open spec fn cells_text(raw: u64, i: int, n: int) -> Seq<char>
    decreases n,
{
    if n <= 0 {
        Seq::empty()
    } else {
        cells_text(raw, i, n - 1).push(if bit(raw, i * 8 + n - 1) { '1' } else { '0' })
    }
}

/// The decimal digit of a number below ten.
pub open spec fn digit_char(d: int) -> char {
    if d == 0 {
        '0'
    } else if d == 1 {
        '1'
    } else if d == 2 {
        '2'
    } else if d == 3 {
        '3'
    } else if d == 4 {
        '4'
    } else if d == 5 {
        '5'
    } else if d == 6 {
        '6'
    } else if d == 7 {
        '7'
    } else if d == 8 {
        '8'
    } else {
        '9'
    }
}

/// The text `"(x, y)"` of the first square of the mask, `"(,)"` for an empty mask.
pub open spec fn point_text(raw: u64) -> Seq<char> {
    if lowest(raw) < 64 {
        seq!['(', digit_char(lowest(raw) % 8), ',', ' ', digit_char(lowest(raw) / 8), ')']
    } else {
        seq!['(', ',', ')']
    }
}

/// The squares of the mask of castling rights: bit 0 is square 7, bit 1 square 0, bit 2
/// square 63 and bit 3 square 56.
pub open spec fn castle_squares(bytes: u8) -> u64 {
    (if bytes & 1u8 != 0 { single(7) } else { 0u64 }) | (if bytes & 2u8 != 0 {
        single(0)
    } else {
        0u64
    }) | (if bytes & 4u8 != 0 { single(63) } else { 0u64 }) | (if bytes & 8u8 != 0 {
        single(56)
    } else {
        0u64
    })
}

/// What `lowest_from` is: the first square at or after `n`.
pub proof fn lemma_lowest_from(raw: u64, n: int)
    requires
        0 <= n <= 64,
    ensures
        n <= lowest_from(raw, n) <= 64,
        lowest_from(raw, n) < 64 ==> bit(raw, lowest_from(raw, n)),
        forall|j: int| n <= j < lowest_from(raw, n) ==> !bit(raw, j),
    decreases 64 - n,
{
    if n < 64 && !bit(raw, n) {
        lemma_lowest_from(raw, n + 1);
    }
}

/// The first square of a mask is the least square that it holds.
pub proof fn lemma_lowest(raw: u64)
    ensures
        0 <= lowest(raw) <= 64,
        lowest(raw) < 64 ==> bit(raw, lowest(raw)),
        forall|j: int| 0 <= j < lowest(raw) ==> !bit(raw, j),
        (lowest(raw) == 64) == (raw == 0),
{
    lemma_lowest_from(raw, 0);
    lemma_zero_iff_empty(raw);
}

/// The squares listed below `n` are exactly those held below `n`, increasing.
pub proof fn lemma_squares_upto(raw: u64, n: int)
    requires
        0 <= n <= 64,
    ensures
        forall|k: int|
            0 <= k < squares_upto(raw, n).len() ==> 0 <= #[trigger] squares_upto(raw, n)[k] < n
                && bit(raw, squares_upto(raw, n)[k]),
        forall|k: int, l: int|
            0 <= k < l < squares_upto(raw, n).len() ==> squares_upto(raw, n)[k] < squares_upto(
                raw,
                n,
            )[l],
        forall|j: int| 0 <= j < n && bit(raw, j) ==> squares_upto(raw, n).contains(j),
        squares_upto(raw, n).len() <= n,
    decreases n,
{
    if n > 0 {
        lemma_squares_upto(raw, n - 1);
        let p = squares_upto(raw, n - 1);
        if bit(raw, n - 1) {
            assert forall|j: int| 0 <= j < n && bit(raw, j) implies squares_upto(
                raw,
                n,
            ).contains(j) by {
                if j < n - 1 {
                    let k = choose|k: int| 0 <= k < p.len() && p[k] == j;
                    assert(squares_upto(raw, n)[k] == j);
                } else {
                    assert(squares_upto(raw, n)[p.len() as int] == j);
                }
            }
        }
    }
}

impl Mask {
    /// The empty mask.
    pub fn new_empty() -> (r: Mask)
        ensures
            r.raw == 0,
    {
        Mask { raw: 0 }
    }

    /// The points of the squares of the mask, in increasing square order.
    pub fn to_point_vector(&self) -> (r: Vec<Point>)
        ensures
            r@.len() == squares(self.raw).len(),
            forall|k: int| 0 <= k < r@.len() ==> #[trigger] r@[k] == square_point(squares(self.raw)[k]),
    {
        let mut v: Vec<Point> = Vec::new();
        let mut s: u64 = 0;
        while s < 64
            invariant
                s <= 64,
                v@.len() == squares_upto(self.raw, s as int).len(),
                forall|k: int|
                    0 <= k < v@.len() ==> #[trigger] v@[k] == square_point(
                        squares_upto(self.raw, s as int)[k],
                    ),
            decreases 64 - s,
        {
            if (self.raw >> s) & 1 == 1 {
                v.push(Point { x: (s % 8) as i32, y: (s / 8) as i32 });
            }
            s = s + 1;
        }
        v
    }

    /// The point of the first square of the mask, if it has one.
    pub fn to_point(&self) -> (r: Option<Point>)
        ensures
            r == (if lowest(self.raw) < 64 {
                Some(square_point(lowest(self.raw)))
            } else {
                None
            }),
    {
        let s = self.first_square();
        if s < 64 {
            Some(Point { x: (s % 8) as i32, y: (s / 8) as i32 })
        } else {
            None
        }
    }

    /// The first square of the mask, 64 when it is empty.
    fn first_square(&self) -> (r: u64)
        ensures
            r == lowest(self.raw),
    {
        let mut s: u64 = 0;
        while s < 64
            invariant
                s <= 64,
                lowest_from(self.raw, 0) == lowest_from(self.raw, s as int),
            decreases 64 - s,
        {
            if (self.raw >> s) & 1 == 1 {
                return s;
            }
            s = s + 1;
        }
        64
    }

    /// `"(x, y)"` for the first square of the mask, `"(,)"` when it is empty.
    pub fn to_point_or_00(&self) -> (r: String)
        ensures
            r@ == point_text(self.raw),
    {
        let s = self.first_square();
        if s < 64 {
            let mut out = String::from_str("(");
            out.append(digit_str(s % 8));
            out.append(", ");
            out.append(digit_str(s / 8));
            out.append(")");
            proof {
                reveal_strlit("(");
                reveal_strlit(", ");
                reveal_strlit(")");
                assert(out@ =~= point_text(self.raw));
            }
            out
        } else {
            proof {
                reveal_strlit("(,)");
            }
            String::from_str("(,)")
        }
    }

    /// The mask as text: a line break, then per row its eight squares as `'1'`/`'0'` and a
    /// line break.
    pub fn str(&self) -> (r: String)
        ensures
            r@ == mask_text(self.raw),
    {
        let mut out = String::from_str("\n");
        proof {
            reveal_strlit("\n");
            reveal_strlit("1");
            reveal_strlit("0");
        }
        let mut i: u64 = 0;
        while i < 8
            invariant
                i <= 8,
                out@ == seq!['\n'] + rows_text(self.raw, i as int),
            decreases 8 - i,
        {
            let mut b: u64 = 0;
            let ghost before = out@;
            while b < 8
                invariant
                    i < 8,
                    b <= 8,
                    out@ == before + cells_text(self.raw, i as int, b as int),
                decreases 8 - b,
            {
                proof {
                    reveal_strlit("1");
                    reveal_strlit("0");
                }
                if (self.raw >> (i * 8 + b)) & 1 == 1 {
                    out.append("1");
                } else {
                    out.append("0");
                }
                proof {
                    assert(out@ =~= before + cells_text(self.raw, i as int, b + 1));
                }
                b = b + 1;
            }
            proof {
                reveal_strlit("\n");
            }
            out.append("\n");
            proof {
                assert(out@ =~= seq!['\n'] + rows_text(self.raw, i + 1));
            }
            i = i + 1;
        }
        out
    }

    /// The row gap from the lower of two masks to the higher, with the lower mask.
    pub fn get_y_gap<'a>(m1: &'a Mask, m2: &'a Mask) -> (r: (usize, &'a Mask))
        requires
            m1.raw != m2.raw ==> y_gap(m1.raw, m2.raw) <= 9,
        ensures
            r.0 == y_gap(m1.raw, m2.raw),
            *r.1 == (if m2.raw < m1.raw { *m2 } else { *m1 }),
    {
        let (from, to, low) = if m1.raw < m2.raw {
            (m1.raw, m2.raw, m1)
        } else if m1.raw > m2.raw {
            (m2.raw, m1.raw, m2)
        } else {
            return (0, m1);
        };
        let gap = Self::gap_loop(from, to, 8);
        (gap, low)
    }

    /// The number of `step`-bit shifts of `from` after which it exceeds `to`.
    fn gap_loop(from: u64, to: u64, step: u64) -> (r: usize)
        requires
            step < 64,
            first_gap(from, to, step, 1) <= 9,
        ensures
            r == first_gap(from, to, step, 1),
    {
        let mut cur = from;
        let mut gap: usize = 0;
        loop
            invariant
                step < 64,
                gap <= 9,
                cur == shifted(from, step, gap as nat),
                first_gap(from, to, step, 1) <= 9,
                first_gap(from, to, step, 1) == first_gap(from, to, step, (gap + 1) as nat),
            decreases 10 - gap,
        {
            cur = cur << step;
            gap = gap + 1;
            if cur > to {
                return gap;
            }
            if gap > 8 {
                assert(first_gap(from, to, step, 10) == 10);
                assert(first_gap(from, to, step, 9) == 10);
                assert(false);
            }
        }
    }

    /// The column gap between two masks ordered by `raw % 8`.
    pub fn get_x_gap(m1: &Mask, m2: &Mask) -> (r: usize)
        requires
            m1.raw % 8 != m2.raw % 8 ==> x_gap(m1.raw, m2.raw) <= 9,
        ensures
            r == x_gap(m1.raw, m2.raw),
    {
        if (m1.raw % 8) < (m2.raw % 8) {
            Self::gap_loop(m1.raw, m2.raw, 1)
        } else if (m1.raw % 8) > (m2.raw % 8) {
            Self::gap_loop(m2.raw, m1.raw, 1)
        } else {
            0
        }
    }

    /// One single-square mask per square of the mask, in increasing square order.
    pub fn isolated_bits(&self) -> (r: Vec<Mask>)
        ensures
            r@.len() == squares(self.raw).len(),
            forall|k: int| 0 <= k < r@.len() ==> (#[trigger] r@[k]).raw == single(squares(self.raw)[k]),
    {
        let mut v: Vec<Mask> = Vec::new();
        let mut s: u64 = 0;
        while s < 64
            invariant
                s <= 64,
                v@.len() == squares_upto(self.raw, s as int).len(),
                forall|k: int|
                    0 <= k < v@.len() ==> (#[trigger] v@[k]).raw == single(
                        squares_upto(self.raw, s as int)[k],
                    ),
            decreases 64 - s,
        {
            if (self.raw >> s) & 1 == 1 {
                v.push(Mask { raw: 1u64 << s });
            }
            s = s + 1;
        }
        v
    }

    /// The mask of the square reached from the first square of `mask` by `point`; empty when
    /// `mask` is empty or the square is off the board.
    pub fn point_add(mask: &Mask, point: &Point) -> (r: Mask)
        requires
            lowest(mask.raw) < 64 ==> i32::MIN <= lowest(mask.raw) % 8 + point.x <= i32::MAX,
            lowest(mask.raw) < 64 ==> i32::MIN <= lowest(mask.raw) / 8 + point.y <= i32::MAX,
        ensures
            lowest(mask.raw) == 64 ==> r.raw == 0,
            lowest(mask.raw) < 64 ==> r.raw == point_mask(
                lowest(mask.raw) % 8 + point.x,
                lowest(mask.raw) / 8 + point.y,
            ),
    {
        proof {
            lemma_lowest(mask.raw);
        }
        match mask.to_point() {
            Some(p) => Mask::from_point(p.plus(point)),
            None => Mask { raw: 0 },
        }
    }

    /// The mask of a point: its square alone, or empty for a point off the board.
    pub fn from_point(point: Point) -> (r: Mask)
        ensures
            r.raw == point_mask(point.x as int, point.y as int),
    {
        if point.x > 7 || point.y > 7 || point.x < 0 || point.y < 0 {
            return Mask { raw: 0 };
        }
        let mut mask = Mask { raw: 1u64 };
        mask.shiftl(8 * point.y);
        mask.shiftl(point.x);
        proof {
            let a: u64 = (8 * point.y) as u64;
            let b: u64 = point.x as u64;
            assert(((1u64 << a) << b) == (1u64 << ((a + b) as u64))) by (bit_vector)
                requires
                    a + b < 64,
            ;
        }
        mask
    }

    /// The squares of column `col` (for a column past 7 the mask starts at square `col` and
    /// climbs by rows).
    pub fn of_column(col: i32) -> (r: Mask)
        requires
            0 <= col < 64,
        ensures
            forall|j: int|
                #![trigger bit(r.raw, j)]
                bit(r.raw, j) == (0 <= j < 64 && j >= col && (j - col) % 8 == 0 && (j - col) / 8
                    <= 7),
            0 <= col < 8 ==> forall|j: int|
                #![trigger bit(r.raw, j)]
                bit(r.raw, j) == (0 <= j < 64 && j % 8 == col),
    {
        let b: u64 = 1u64 << (col as u64);
        let mut mask = Mask { raw: b };
        proof {
            assert forall|j: int| #![trigger bit(mask.raw, j)] bit(mask.raw, j) == (0 <= j < 64
                && j >= col && (j - col) % 8 == 0 && (j - col) / 8 <= 0) by {
                assert(mask.raw == single(col as int));
                assert(bit(single(col as int), j) == (col == j));
                if 0 <= j < 64 && j >= col && (j - col) % 8 == 0 && (j - col) / 8 <= 0 {
                    assert(j == col);
                }
            }
        }
        let mut k: u32 = 0;
        while k < 7
            invariant
                0 <= col < 64,
                k <= 7,
                b == single(col as int),
                forall|j: int|
                    #![trigger bit(mask.raw, j)]
                    bit(mask.raw, j) == (0 <= j < 64 && j >= col && (j - col) % 8 == 0 && (j - col)
                        / 8 <= k),
            decreases 7 - k,
        {
            let ghost prev = mask.raw;
            mask.shiftl(8);
            mask.or_assign_u64(b);
            proof {
                assert forall|j: int| #![trigger bit(mask.raw, j)] bit(mask.raw, j) == (0 <= j < 64
                    && j >= col && (j - col) % 8 == 0 && (j - col) / 8 <= k + 1) by {
                    assert(bit(prev << 8u64, j) == (0 <= j < 64 && j >= 8 && bit(prev, j - 8)));
                }
            }
            k = k + 1;
        }
        proof {
            if 0 <= col < 8 {
                assert forall|j: int| #![trigger bit(mask.raw, j)] bit(mask.raw, j) == (0 <= j < 64
                    && j % 8 == col) by {}
            }
        }
        mask
    }

    /// The first square of the mask, 0 for the empty mask.
    pub fn as_index(&self) -> (r: usize)
        ensures
            r == index_of(self.raw),
    {
        let s = self.first_square();
        if s < 64 {
            s as usize
        } else {
            0
        }
    }

    /// The rook squares whose castling rights the byte holds.
    pub fn from_castle_bytes(bytes: u8) -> (r: Self)
        ensures
            r.raw == castle_squares(bytes),
    {
        let a: u64 = if (bytes & 0b0000_0001) != 0 {
            Mask::from_point(Point { x: 7, y: 0 }).raw
        } else {
            0
        };
        let b: u64 = if (bytes & 0b0000_0010) != 0 {
            Mask::from_point(Point { x: 0, y: 0 }).raw
        } else {
            0
        };
        let c: u64 = if (bytes & 0b0000_0100) != 0 {
            Mask::from_point(Point { x: 7, y: 7 }).raw
        } else {
            0
        };
        let d: u64 = if (bytes & 0b0000_1000) != 0 {
            Mask::from_point(Point { x: 0, y: 7 }).raw
        } else {
            0
        };
        Self { raw: a | b | c | d }
    }

    /// The mask of square `index` alone.
    pub fn from_index(index: usize) -> (r: Mask)
        requires
            index < 64,
        ensures
            r.raw == single(index as int),
    {
        Mask { raw: (1u64 << (index as u64)) }
    }

    /// The number of squares of the mask.
    pub fn bit_count(&self) -> (r: u32)
        ensures
            r == popcount(self.raw),
    {
        let mut count: u32 = 0;
        let mut s: u64 = 0;
        while s < 64
            invariant
                s <= 64,
                count == squares_upto(self.raw, s as int).len(),
                count <= s,
            decreases 64 - s,
        {
            proof {
                lemma_squares_upto(self.raw, s as int);
            }
            if (self.raw >> s) & 1 == 1 {
                count = count + 1;
            }
            s = s + 1;
        }
        count
    }

    /// Shift every square up by `n`.
    pub fn shiftl(&mut self, n: i32)
        requires
            0 <= n < 64,
        ensures
            final(self).raw == old(self).raw << (n as u64),
    {
        self.raw = self.raw << (n as u64);
    }

    /// Shift every square down by `n`.
    pub fn shiftr(&mut self, n: i32)
        requires
            0 <= n < 64,
        ensures
            final(self).raw == old(self).raw >> (n as u64),
    {
        self.raw = self.raw >> (n as u64);
    }

    /// Shift every square `n` rows towards the last row.
    pub fn shiftup(&mut self, n: usize)
        requires
            n * 8 < 64,
        ensures
            final(self).raw == old(self).raw << ((n * 8) as u64),
    {
        self.raw = self.raw << ((n * 8) as u64);
    }

    /// Shift every square `n` rows towards row 0.
    pub fn shiftdown(&mut self, n: usize)
        requires
            n * 8 < 64,
        ensures
            final(self).raw == old(self).raw >> ((n * 8) as u64),
    {
        self.raw = self.raw >> ((n * 8) as u64);
    }

    /// Whether the mask holds a square.
    pub fn any(&self) -> (r: bool)
        ensures
            r == (self.raw != 0),
    {
        self.raw > 0
    }

    /// Whether the mask is empty.
    pub fn none(&self) -> (r: bool)
        ensures
            r == (self.raw == 0),
    {
        !self.any()
    }

    /// The complement of the mask.
    pub fn get_not(&self) -> (r: Self)
        ensures
            r.raw == !self.raw,
    {
        Mask { raw: !self.raw }
    }

    /// Complement the mask in place, returning the new mask.
    pub fn not(&mut self) -> (r: Self)
        ensures
            final(self).raw == !old(self).raw,
            r == *final(self),
    {
        self.raw = !self.raw;
        *self
    }

    /// The mask turned upside down: row `y` goes to row `7 - y`.
    pub fn flipped(&self) -> (r: Mask)
        ensures
            forall|j: int| 0 <= j < 64 ==> #[trigger] bit(r.raw, j) == bit(self.raw, flip_square(j)),
    {
        let mut out: u64 = 0;
        let mut s: u64 = 0;
        while s < 64
            invariant
                s <= 64,
                forall|j: int|
                    0 <= j < 64 ==> #[trigger] bit(out, j) == (flip_square(j) < s && bit(
                        self.raw,
                        flip_square(j),
                    )),
            decreases 64 - s,
        {
            if (self.raw >> s) & 1 == 1 {
                let t: u64 = (7 - s / 8) * 8 + s % 8;
                let ghost prev = out;
                out = out | (1u64 << t);
                proof {
                    assert forall|j: int| 0 <= j < 64 implies #[trigger] bit(out, j) == (
                    flip_square(j) < s + 1 && bit(self.raw, flip_square(j))) by {
                        assert(bit(out, j) == (bit(prev, j) || bit(single(t as int), j)));
                        assert((j == t) == (flip_square(j) == s));
                    }
                }
            } else {
                proof {
                    assert forall|j: int| 0 <= j < 64 implies #[trigger] bit(out, j) == (
                    flip_square(j) < s + 1 && bit(self.raw, flip_square(j))) by {
                        if flip_square(j) == s {
                        }
                    }
                }
            }
            s = s + 1;
        }
        Mask { raw: out }
    }

    /// Whether the mask is exactly the square of a point (empty for a point off the board).
    pub fn eq_point(&self, other: &Point) -> (r: bool)
        ensures
            r == (point_mask(other.x as int, other.y as int) == self.raw),
    {
        Mask::from_point(*other).raw == self.raw
    }

    /// Whether the mask is exactly square `other`.
    pub fn eq_index(&self, other: &usize) -> (r: bool)
        requires
            popcount(self.raw) == 1 ==> *other < 64,
        ensures
            r == (popcount(self.raw) == 1 && single(*other as int) == self.raw),
    {
        self.bit_count() == 1 && (1u64 << (*other as u64)) == self.raw
    }

    /// The union of two masks.
    pub fn or(self, rhs: Mask) -> (r: Mask)
        ensures
            r.raw == self.raw | rhs.raw,
    {
        Mask { raw: self.raw | rhs.raw }
    }

    /// The union of the mask and a raw bit pattern.
    pub fn or_u64(self, rhs: u64) -> (r: Mask)
        ensures
            r.raw == self.raw | rhs,
    {
        Mask { raw: self.raw | rhs }
    }

    /// The union of the mask and the square of a point.
    pub fn or_point(self, rhs: Point) -> (r: Mask)
        ensures
            r.raw == self.raw | point_mask(rhs.x as int, rhs.y as int),
    {
        self.or(Self::from_point(rhs))
    }

    /// The intersection of two masks.
    pub fn and(self, rhs: Mask) -> (r: Mask)
        ensures
            r.raw == self.raw & rhs.raw,
    {
        Mask { raw: self.raw & rhs.raw }
    }

    /// The intersection of the mask and a raw bit pattern.
    pub fn and_u64(self, rhs: u64) -> (r: Mask)
        ensures
            r.raw == self.raw & rhs,
    {
        Mask { raw: self.raw & rhs }
    }

    /// The intersection of the mask and the square of a point.
    pub fn and_point(self, rhs: Point) -> (r: Mask)
        ensures
            r.raw == self.raw & point_mask(rhs.x as int, rhs.y as int),
    {
        self.and(Self::from_point(rhs))
    }

    /// The symmetric difference of two masks.
    pub fn xor(self, rhs: Mask) -> (r: Mask)
        ensures
            r.raw == self.raw ^ rhs.raw,
    {
        Mask { raw: self.raw ^ rhs.raw }
    }

    /// The symmetric difference of the mask and a raw bit pattern.
    pub fn xor_u64(self, rhs: u64) -> (r: Mask)
        ensures
            r.raw == self.raw ^ rhs,
    {
        Mask { raw: self.raw ^ rhs }
    }

    /// The symmetric difference of the mask and the square of a point.
    pub fn xor_point(self, rhs: Point) -> (r: Mask)
        ensures
            r.raw == point_mask(rhs.x as int, rhs.y as int) ^ self.raw,
    {
        Mask { raw: Self::from_point(rhs).raw ^ self.raw }
    }

    /// Add the squares of another mask.
    pub fn or_assign(&mut self, rhs: Mask)
        ensures
            final(self).raw == old(self).raw | rhs.raw,
    {
        self.raw = self.raw | rhs.raw;
    }

    /// Add the squares of a raw bit pattern.
    pub fn or_assign_u64(&mut self, rhs: u64)
        ensures
            final(self).raw == old(self).raw | rhs,
    {
        self.raw = self.raw | rhs;
    }

    /// Add the square of a point.
    pub fn or_assign_point(&mut self, rhs: Point)
        ensures
            final(self).raw == old(self).raw | point_mask(rhs.x as int, rhs.y as int),
    {
        self.raw = self.raw | Self::from_point(rhs).raw;
    }

    /// Add square `rhs`.
    pub fn or_assign_index(&mut self, rhs: usize)
        requires
            rhs < 64,
        ensures
            final(self).raw == old(self).raw | single(rhs as int),
    {
        self.raw = self.raw | Mask::from_index(rhs).raw;
    }

    /// Toggle the squares of another mask.
    pub fn xor_assign(&mut self, rhs: Mask)
        ensures
            final(self).raw == old(self).raw ^ rhs.raw,
    {
        self.raw = self.raw ^ rhs.raw;
    }

    /// Toggle the squares of a raw bit pattern.
    pub fn xor_assign_u64(&mut self, rhs: u64)
        ensures
            final(self).raw == old(self).raw ^ rhs,
    {
        self.raw = self.raw ^ rhs;
    }

    /// Toggle the square of a point.
    pub fn xor_assign_point(&mut self, rhs: Point)
        ensures
            final(self).raw == old(self).raw ^ point_mask(rhs.x as int, rhs.y as int),
    {
        self.raw = self.raw ^ Self::from_point(rhs).raw;
    }

    /// Keep only the square of a point.
    pub fn and_assign_point(&mut self, rhs: Point)
        ensures
            final(self).raw == old(self).raw & point_mask(rhs.x as int, rhs.y as int),
    {
        self.raw = self.raw & Self::from_point(rhs).raw;
    }

    /// The in-place `&=` with a mask, which this library (like the engine it serves) computes
    /// as a union.
    pub fn and_assign(&mut self, rhs: Mask)
        ensures
            final(self).raw == old(self).raw | rhs.raw,
    {
        self.raw = self.raw | rhs.raw;
    }

    /// The in-place `&=` with a raw bit pattern, computed as a union.
    pub fn and_assign_u64(&mut self, rhs: u64)
        ensures
            final(self).raw == old(self).raw | rhs,
    {
        self.raw = self.raw | rhs;
    }
}

impl Default for Mask {
    fn default() -> (r: Mask)
        ensures
            r.raw == 0,
    {
        Mask { raw: 0u64 }
    }
}

/// The mask of a point: its square alone, or empty off the board.
pub open spec fn point_mask(x: int, y: int) -> u64 {
    if on_board(x, y) {
        single(y * 8 + x)
    } else {
        0u64
    }
}

/// The decimal digit of a number below ten, as a string.
fn digit_str(d: u64) -> (r: &'static str)
    requires
        d < 10,
    ensures
        r@ == seq![digit_char(d as int)],
{
    proof {
        reveal_strlit("0");
        reveal_strlit("1");
        reveal_strlit("2");
        reveal_strlit("3");
        reveal_strlit("4");
        reveal_strlit("5");
        reveal_strlit("6");
        reveal_strlit("7");
        reveal_strlit("8");
        reveal_strlit("9");
    }
    if d == 0 {
        "0"
    } else if d == 1 {
        "1"
    } else if d == 2 {
        "2"
    } else if d == 3 {
        "3"
    } else if d == 4 {
        "4"
    } else if d == 5 {
        "5"
    } else if d == 6 {
        "6"
    } else if d == 7 {
        "7"
    } else if d == 8 {
        "8"
    } else {
        "9"
    }
}

/// The square of `from_index(i)` is `i`, and `as_index` gives it back.
pub proof fn lemma_index_roundtrip(i: int)
    requires
        0 <= i < 64,
    ensures
        index_of(single(i)) == i,
        popcount(single(i)) == 1,
{
    lemma_lowest(single(i));
    assert(bit(single(i), i));
    assert(single(i) != 0) by {
        if single(i) == 0 {
            assert(!bit(0u64, i));
        }
    }
    assert(bit(single(i), lowest(single(i))));
    assert(lowest(single(i)) == i);
    lemma_squares_upto(single(i), 64);
    lemma_single_squares(i, 64);
}

proof fn lemma_single_squares(i: int, n: int)
    requires
        0 <= i < 64,
        0 <= n <= 64,
    ensures
        squares_upto(single(i), n) == (if i < n { seq![i] } else { Seq::<int>::empty() }),
    decreases n,
{
    if n > 0 {
        lemma_single_squares(i, n - 1);
        assert(squares_upto(single(i), n) =~= (if i < n { seq![i] } else { Seq::<int>::empty() }));
    }
}

/// Putting the single squares of a mask back together gives the mask.
pub proof fn lemma_isolated_union(raw: u64, n: int)
    requires
        0 <= n <= 64,
    ensures
        forall|j: int|
            0 <= j < n ==> (bit(raw, j) <==> squares_upto(raw, n).contains(j)),
{
    lemma_squares_upto(raw, n);
}

/// Turning a mask upside down twice gives it back: if `once` is `m` flipped and
/// `twice` is `once` flipped, as `flipped` ensures, then `twice` is `m`.
pub proof fn lemma_flipped_twice(m: Mask, once: Mask, twice: Mask)
    requires
        forall|j: int| 0 <= j < 64 ==> #[trigger] bit(once.raw, j) == bit(m.raw, flip_square(j)),
        forall|j: int| 0 <= j < 64 ==> #[trigger] bit(twice.raw, j) == bit(once.raw, flip_square(j)),
    ensures
        twice == m,
{
    assert forall|j: int| 0 <= j < 64 implies bit(twice.raw, j) == bit(m.raw, j) by {
        lemma_flip_square_involution(j);
        assert(bit(once.raw, flip_square(j)) == bit(m.raw, flip_square(flip_square(j))));
    }
    crate::bits::lemma_bits_ext(twice.raw, m.raw);
}

/// Flipping a square twice gives it back.
pub proof fn lemma_flip_square_involution(s: int)
    requires
        0 <= s < 64,
    ensures
        0 <= flip_square(s) < 64,
        flip_square(flip_square(s)) == s,
{
}

/// The first square of a mask is its number of trailing zero bits, which is 64 for the empty
/// mask; so `as_index` gives the trailing zeros of a mask that is not empty.
pub proof fn lemma_lowest_trailing_zeros(raw: u64)
    ensures
        lowest(raw) == vstd::std_specs::bits::u64_trailing_zeros(raw) as int,
        raw != 0 ==> index_of(raw) == vstd::std_specs::bits::u64_trailing_zeros(raw) as int,
{
    lemma_lowest(raw);
    vstd::std_specs::bits::axiom_u64_trailing_zeros(raw);
    let t = vstd::std_specs::bits::u64_trailing_zeros(raw) as int;
    let l = lowest(raw);
    if l < t {
        let j: u64 = l as u64;
        assert((raw >> j) & 1u64 == 0u64);
    }
    if t < l {
        assert(bit(raw, t));
    }
}

proof fn lemma_count_union_upto(a: u64, b: u64, n: int)
    requires
        0 <= n <= 64,
    ensures
        squares_upto(a | b, n).len() + squares_upto(a & b, n).len() == squares_upto(a, n).len()
            + squares_upto(b, n).len(),
    decreases n,
{
    if n > 0 {
        lemma_count_union_upto(a, b, n - 1);
        assert(bit(a | b, n - 1) == (bit(a, n - 1) || bit(b, n - 1)));
        assert(bit(a & b, n - 1) == (bit(a, n - 1) && bit(b, n - 1)));
    }
}

proof fn lemma_count_not_upto(a: u64, n: int)
    requires
        0 <= n <= 64,
    ensures
        squares_upto(!a, n).len() + squares_upto(a, n).len() == n,
    decreases n,
{
    if n > 0 {
        lemma_count_not_upto(a, n - 1);
        assert(bit(!a, n - 1) == !bit(a, n - 1));
    }
}

/// Counting squares: those of the union and of the intersection of two masks together number
/// those of the two masks.
pub proof fn lemma_bit_count_union(a: Mask, b: Mask)
    ensures
        popcount(a.raw | b.raw) + popcount(a.raw & b.raw) == popcount(a.raw) + popcount(b.raw),
{
    lemma_count_union_upto(a.raw, b.raw, 64);
}

/// The complement of a mask holds the 64 squares less those of the mask.
pub proof fn lemma_bit_count_not(a: Mask)
    ensures
        popcount(!a.raw) == 64 - popcount(a.raw),
{
    lemma_count_not_upto(a.raw, 64);
}

/// The mask of a point on the board has that point as its first square, so `to_point` of
/// `from_point(p)` gives back `p`.
pub proof fn lemma_point_roundtrip(p: Point)
    requires
        on_board(p.x as int, p.y as int),
    ensures
        lowest(point_mask(p.x as int, p.y as int)) == p.y * 8 + p.x,
        square_point(lowest(point_mask(p.x as int, p.y as int))) == p,
{
    let i = p.y * 8 + p.x;
    lemma_index_roundtrip(i);
    lemma_lowest(single(i));
    assert(i % 8 == p.x && i / 8 == p.y) by (nonlinear_arith)
        requires
            i == p.y * 8 + p.x,
            0 <= p.x < 8,
            0 <= p.y < 8,
    ;
}

/// Adding an offset to the mask of a point on the board gives the mask of the point moved by
/// the offset (empty when that point is off the board).
pub proof fn lemma_point_add_of_point(p: Point, d: Point)
    requires
        on_board(p.x as int, p.y as int),
    ensures
        lowest(point_mask(p.x as int, p.y as int)) < 64,
        point_mask(
            lowest(point_mask(p.x as int, p.y as int)) % 8 + d.x,
            lowest(point_mask(p.x as int, p.y as int)) / 8 + d.y,
        ) == point_mask(p.x + d.x, p.y + d.y),
{
    lemma_point_roundtrip(p);
}

} // verus!
