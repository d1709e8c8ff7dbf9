use vstd::prelude::*;
use vstd::std_specs::iter::IteratorSpec;

verus! {

/// A square given by its column `x` and row `y`; the board is the squares with both in `0..8`.
#[derive(Clone, Copy, Debug, PartialEq, Eq, Structural)]
pub struct Point {
    pub x: i32,
    pub y: i32,
}

/// Whether a column and row lie on the board.
pub open spec fn on_board(x: int, y: int) -> bool {
    0 <= x < 8 && 0 <= y < 8
}

/// The index of a square of the board, row by row from the top-left corner.
pub open spec fn square_index(x: int, y: int) -> int {
    y * 8 + x
}

impl Point {
    /// Whether the point lies on the board.
    pub fn valid(&self) -> (r: bool)
        ensures
            r == on_board(self.x as int, self.y as int),
    {
        self.x >= 0 && self.x < 8 && self.y >= 0 && self.y < 8
    }

    /// The board index of the point, `y * 8 + x` converted to `usize`.
    pub fn to_index(&self) -> (r: usize)
        requires
            i32::MIN <= self.y * 8 <= i32::MAX,
            i32::MIN <= self.y * 8 + self.x <= i32::MAX,
        ensures
            r == (square_index(self.x as int, self.y as int)) as usize,
            on_board(self.x as int, self.y as int) ==> r as int == square_index(
                self.x as int,
                self.y as int,
            ),
    {
        (self.y * 8 + self.x) as usize
    }

    /// The point of a board index: column `index % 8`, row `index / 8`.
    pub fn from_index(index: usize) -> (r: Point)
        ensures
            r.x == (index % 8) as i32,
            r.y == (index / 8) as i32,
            index < 64 ==> r.x as int == index as int % 8 && r.y as int == index as int / 8,
    {
        Point { x: (index % 8) as i32, y: (index / 8) as i32 }
    }

    /// The sum of two points.
    pub fn plus(&self, rhs: &Point) -> (r: Point)
        requires
            i32::MIN <= self.x + rhs.x <= i32::MAX,
            i32::MIN <= self.y + rhs.y <= i32::MAX,
        ensures
            r.x == self.x + rhs.x,
            r.y == self.y + rhs.y,
    {
        Point { x: self.x + rhs.x, y: self.y + rhs.y }
    }

    /// The difference of two points.
    pub fn minus(&self, rhs: &Point) -> (r: Point)
        requires
            i32::MIN <= self.x - rhs.x <= i32::MAX,
            i32::MIN <= self.y - rhs.y <= i32::MAX,
        ensures
            r.x == self.x - rhs.x,
            r.y == self.y - rhs.y,
    {
        Point { x: self.x - rhs.x, y: self.y - rhs.y }
    }

    /// The point scaled by an integer.
    pub fn times(&self, rhs: i32) -> (r: Point)
        requires
            i32::MIN <= self.x * rhs <= i32::MAX,
            i32::MIN <= self.y * rhs <= i32::MAX,
        ensures
            r.x == self.x * rhs,
            r.y == self.y * rhs,
    {
        Point { x: self.x * rhs, y: self.y * rhs }
    }
}

impl Default for Point {
    fn default() -> (r: Point)
        ensures
            r.x == 0 && r.y == 0,
    {
        Point { x: 0, y: 0 }
    }
}

/// The point with the given column and row.
pub fn point(xv: i32, yv: i32) -> (r: Point)
    ensures
        r.x == xv && r.y == yv,
{
    Point { x: xv, y: yv }
}

/// The decimal value of a character, as `char::to_digit(10)` gives it.
pub open spec fn decimal_digit(c: char) -> Option<u32> {
    if '0' <= c <= '9' {
        Some((c as u32 - '0' as u32) as u32)
    } else {
        None
    }
}

/// The point that an algebraic square name gives: the column is the code of the first
/// character minus the code of `'a'` (`'a'` when the name is empty), the row is the decimal
/// value of the second character (1 when it is missing or no digit).
pub open spec fn algebraic_point(alg: Seq<char>) -> Point {
    let c0: char = if alg.len() > 0 { alg[0] } else { 'a' };
    let y: u32 = if alg.len() > 1 && decimal_digit(alg[1]) is Some {
        decimal_digit(alg[1])->0
    } else {
        1u32
    };
    Point { x: (c0 as u32 as int - 97) as i32, y: y as i32 }
}

/// The point of an algebraic square name such as `"e3"`.
pub fn algebraic_to_point(alg: &str) -> (r: Point)
    ensures
        r == algebraic_point(alg@),
{
    let mut chars = alg.chars();
    proof {
        vstd::string::axiom_spec_iter(alg);
    }
    let ghost before_first = chars;
    let c0 = chars.next();
    proof {
        vstd::string::next_postcondition(&before_first, &chars, c0);
    }
    let ghost before_second = chars;
    let c1 = chars.next();
    proof {
        vstd::string::next_postcondition(&before_second, &chars, c1);
    }
    let first: char = match c0 {
        Some(c) => c,
        None => 'a',
    };
    let second: u32 = match c1 {
        Some(c) => if '0' <= c && c <= '9' {
            (c as u32) - ('0' as u32)
        } else {
            1
        },
        None => 1,
    };
    let fc: u32 = first as u32;
    proof {
        vstd::utf8::char_is_scalar(first);
    }
    Point { x: fc as i32 - 97, y: second as i32 }
}

/// Index and point convert into each other on the board.
pub proof fn lemma_index_point_roundtrip(index: int)
    requires
        0 <= index < 64,
    ensures
        on_board(index % 8, index / 8),
        square_index(index % 8, index / 8) == index,
{
}

} // verus!
