use vstd::prelude::*;
use crate::bits::{bit, single, mask_of, lemma_is_mask_of, group_bits};
use crate::mask::{Mask, point_mask};
use crate::point::{Point, point, on_board};

verus! {

broadcast use group_bits;

// Pieces as objects: each knows its side (`true` for black), square, kind and whether it has
// moved, and computes its moves from masks of the board.

/// The kinds of piece.
#[derive(Clone, Copy, PartialEq, Eq, Debug, Structural)]
pub enum PieceType {
    ROOK,
    PAWN,
    BISHOP,
    QUEEN,
    KING,
    KNIGHT,
}

/// What a piece is: its side (`true` for black), square, kind and whether it has moved.
#[derive(Clone, Copy, PartialEq, Eq, Structural)]
pub struct PieceProperties {
    pub parity: bool,
    pub pos: Point,
    pub ptype: PieceType,
    pub has_moved: bool,
}

/// A rook.
pub struct Rook {
    pub props: PieceProperties,
}

/// A pawn.
pub struct Pawn {
    pub props: PieceProperties,
}

/// A bishop.
pub struct Bishop {
    pub props: PieceProperties,
}

/// A queen.
pub struct Queen {
    pub props: PieceProperties,
}

/// A king.
pub struct King {
    pub props: PieceProperties,
}

/// A knight.
pub struct Knight {
    pub props: PieceProperties,
}

/// Whether an integer fits in an `i32`.
pub open spec fn fits(v: int) -> bool {
    i32::MIN <= v <= i32::MAX
}

/// The column of step `i` of direction `d` from `p`.
pub open spec fn step_x(p: Point, d: Point, i: int) -> int {
    p.x + d.x * i
}

/// The row of step `i` of direction `d` from `p`.
pub open spec fn step_y(p: Point, d: Point, i: int) -> int {
    p.y + d.y * i
}

/// The square of step `i` of direction `d` from `p`.
pub open spec fn step_square(p: Point, d: Point, i: int) -> int {
    step_y(p, d, i) * 8 + step_x(p, d, i)
}

/// Whether step `i` of direction `d` is an empty square of the board.
pub open spec fn step_open(p: Point, d: Point, i: int, pieces: u64) -> bool {
    on_board(step_x(p, d, i), step_y(p, d, i)) && !bit(pieces, step_square(p, d, i))
}

/// Whether step `i` of direction `d` is reached by a slider: on the board, every step before
/// it empty, and itself empty or an enemy.
pub open spec fn slide_hit(p: Point, d: Point, i: int, enemy: u64, pieces: u64) -> bool {
    &&& on_board(step_x(p, d, i), step_y(p, d, i))
    &&& forall|j: int| 1 <= j < i ==> #[trigger] step_open(p, d, j, pieces)
    &&& (!bit(pieces, step_square(p, d, i)) || bit(enemy, step_square(p, d, i)))
}

/// Whether square `s` is step `i` of direction `k` and reached.
pub open spec fn slide_reaches(p: Point, dirs: Seq<Point>, enemy: u64, pieces: u64, k: int, i: int, s: int) -> bool {
    &&& 0 <= k < dirs.len()
    &&& 1 <= i <= 8
    &&& slide_hit(p, dirs[k], i, enemy, pieces)
    &&& step_square(p, dirs[k], i) == s
}

/// The squares a slider on `p` reaches along the directions, up to eight steps each.
pub open spec fn sliding_mask(p: Point, dirs: Seq<Point>, enemy: u64, pieces: u64) -> u64 {
    mask_of(|s: int| exists|k: int, i: int| #[trigger] slide_reaches(p, dirs, enemy, pieces, k, i, s))
}

/// Whether the steps of every direction stay within `i32`.
pub open spec fn slide_fits(p: Point, dirs: Seq<Point>) -> bool {
    forall|k: int, i: int|
        0 <= k < dirs.len() && 1 <= i <= 8 ==> fits(#[trigger] (dirs[k].x * i)) && fits(dirs[k].y * i) && fits(
            step_x(p, dirs[k], i),
        ) && fits(step_y(p, dirs[k], i))
}

/// The squares a slider on `position` reaches along the directions: on each, the empty
/// squares up to the first piece, which counts when it is an enemy; eight steps at most.
fn sliding_move(position: Point, directions: &Vec<Point>, enemy_mask: &Mask, piece_mask: &Mask) -> (r: Mask)
    requires
        slide_fits(position, directions@),
    ensures
        r.raw == sliding_mask(position, directions@, enemy_mask.raw, piece_mask.raw),
{
    let ghost dirs = directions@;
    let ghost enemy = enemy_mask.raw;
    let ghost pieces = piece_mask.raw;
    let mut move_mask: u64 = 0;
    let mut hits: Vec<bool> = Vec::new();
    let mut h: usize = 0;
    while h < directions.len()
        invariant
            h <= directions@.len(),
            hits@.len() == h,
            forall|k: int| 0 <= k < h ==> !#[trigger] hits@[k],
        decreases directions@.len() - h,
    {
        hits.push(false);
        h = h + 1;
    }
    let mut i: i32 = 1;
    while i <= 8
        invariant
            1 <= i <= 9,
            dirs == directions@,
            enemy == enemy_mask.raw,
            pieces == piece_mask.raw,
            slide_fits(position, dirs),
            hits@.len() == dirs.len(),
            forall|k: int| 0 <= k < dirs.len() ==> #[trigger] hits@[k] == !(forall|j: int| 1 <= j < i ==> #[trigger] step_open(position, dirs[k], j, pieces)),
            forall|s: int| 0 <= s < 64 ==> #[trigger] bit(move_mask, s) == exists|k: int, i2: int| i2 < i && #[trigger] slide_reaches(position, dirs, enemy, pieces, k, i2, s),
        decreases 9 - i,
    {
        let mut k: usize = 0;
        while k < directions.len()
            invariant
                1 <= i <= 8,
                k <= dirs.len(),
                dirs == directions@,
                enemy == enemy_mask.raw,
                pieces == piece_mask.raw,
                slide_fits(position, dirs),
                hits@.len() == dirs.len(),
                forall|kk: int| 0 <= kk < k ==> #[trigger] hits@[kk] == !(forall|j: int| 1 <= j < i + 1 ==> #[trigger] step_open(position, dirs[kk], j, pieces)),
                forall|kk: int| k <= kk < dirs.len() ==> #[trigger] hits@[kk] == !(forall|j: int| 1 <= j < i ==> #[trigger] step_open(position, dirs[kk], j, pieces)),
                forall|s: int| 0 <= s < 64 ==> #[trigger] bit(move_mask, s) == exists|kk: int, i2: int| (i2 < i || (i2 == i && kk < k)) && #[trigger] slide_reaches(position, dirs, enemy, pieces, kk, i2, s),
            decreases dirs.len() - k,
        {
            let d = directions[k];
            proof {
                assert(fits(d.x * i) && fits(d.y * i) && fits(step_x(position, d, i as int)) && fits(step_y(position, d, i as int)));
            }
            let pos = position.plus(&d.times(i));
            let ghost before = move_mask;
            let ghost hk = hits@[k as int];
            proof {
                assert(pos.x == step_x(position, d, i as int) && pos.y == step_y(position, d, i as int));
            }
            if pos.valid() {
                if hits[k] {
                    proof {
                        assert forall|s: int| 0 <= s < 64 implies #[trigger] bit(move_mask, s) == exists|kk: int, i2: int| (i2 < i || (i2 == i && kk < k + 1)) && #[trigger] slide_reaches(position, dirs, enemy, pieces, kk, i2, s) by {
                            if !slide_reaches(position, dirs, enemy, pieces, k as int, i as int, s) {
                            } else {
                                let j = choose|j: int| 1 <= j < i && !#[trigger] step_open(position, dirs[k as int], j, pieces);
                                assert(!step_open(position, dirs[k as int], j, pieces));
                            }
                        }
                        let j = choose|j: int| 1 <= j < i && !#[trigger] step_open(position, dirs[k as int], j, pieces);
                        assert(1 <= j < i + 1 && !step_open(position, dirs[k as int], j, pieces));
                    }
                    k = k + 1;
                    continue;
                }
                let pos_mask = Mask::from_point(pos);
                let ghost sq: int = step_square(position, d, i as int);
                proof {
                    assert(pos_mask.raw == single(sq));
                    crate::bits::lemma_and_single(piece_mask.raw, sq);
                    crate::bits::lemma_and_single(enemy_mask.raw, sq);
                    let a = piece_mask.raw;
                    let b = single(sq);
                    assert((a & b) == (b & a)) by (bit_vector);
                    let e = enemy_mask.raw;
                    assert((e & b) == (b & e)) by (bit_vector);
                }
                if piece_mask.and(pos_mask).any() {
                    if enemy_mask.and(pos_mask).any() {
                        move_mask = move_mask | pos_mask.raw;
                    }
                    hits.set(k, true);
                    proof {
                        assert(!step_open(position, dirs[k as int], i as int, pieces));
                    }
                } else {
                    move_mask = move_mask | pos_mask.raw;
                    proof {
                        assert(step_open(position, dirs[k as int], i as int, pieces));
                        assert forall|j: int| 1 <= j < i + 1 implies #[trigger] step_open(position, dirs[k as int], j, pieces) by {
                            if j < i {
                            }
                        }
                    }
                }
                proof {
                    assert forall|j: int| 1 <= j < i + 1 && hits@[k as int] == false implies #[trigger] step_open(position, dirs[k as int], j, pieces) by {
                        if j == i {
                        }
                    }
                    assert forall|s: int| 0 <= s < 64 implies #[trigger] bit(move_mask, s) == exists|kk: int, i2: int| (i2 < i || (i2 == i && kk < k + 1)) && #[trigger] slide_reaches(position, dirs, enemy, pieces, kk, i2, s) by {
                        if s == sq && slide_reaches(position, dirs, enemy, pieces, k as int, i as int, s) {
                            assert(bit(single(sq), s));
                        }
                    }
                }
            } else {
                hits.set(k, true);
                proof {
                    assert(!step_open(position, dirs[k as int], i as int, pieces));
                }
            }
            k = k + 1;
        }
        i = i + 1;
    }
    proof {
        lemma_is_mask_of(move_mask, |s: int| exists|k: int, i: int| #[trigger] slide_reaches(position, dirs, enemy, pieces, k, i, s));
    }
    Mask { raw: move_mask }
}

/// The directions of a rook.
pub open spec fn rook_dirs() -> Seq<Point> {
    seq![Point { x: 1i32, y: 0i32 }, Point { x: -1i32, y: 0i32 }, Point { x: 0i32, y: 1i32 }, Point { x: 0i32, y: -1i32 }]
}

/// The directions of a bishop.
pub open spec fn bishop_dirs() -> Seq<Point> {
    seq![Point { x: 1i32, y: 1i32 }, Point { x: -1i32, y: 1i32 }, Point { x: -1i32, y: -1i32 }, Point { x: 1i32, y: -1i32 }]
}

/// The directions of a queen.
pub open spec fn queen_dirs() -> Seq<Point> {
    bishop_dirs() + rook_dirs()
}

/// Whether a square `p` lies at least eight steps inside the range of `i32`.
pub open spec fn roomy(p: Point) -> bool {
    i32::MIN + 8 <= p.x <= i32::MAX - 8 && i32::MIN + 8 <= p.y <= i32::MAX - 8
}

/// Unit directions from a roomy square stay within `i32`.
proof fn lemma_unit_dirs_fit(p: Point, dirs: Seq<Point>)
    requires
        roomy(p),
        forall|k: int| 0 <= k < dirs.len() ==> -1 <= #[trigger] dirs[k].x <= 1 && -1 <= dirs[k].y <= 1,
    ensures
        slide_fits(p, dirs),
{
    assert forall|k: int, i: int| 0 <= k < dirs.len() && 1 <= i <= 8 implies fits(#[trigger] (dirs[k].x * i)) && fits(dirs[k].y * i)
        && fits(step_x(p, dirs[k], i)) && fits(step_y(p, dirs[k], i)) by {
        let d = dirs[k];
        assert(-8 <= d.x * i <= 8 && -8 <= d.y * i <= 8) by (nonlinear_arith)
            requires
                -1 <= d.x <= 1,
                -1 <= d.y <= 1,
                1 <= i <= 8,
        ;
    }
}

/// A square of the board's mask when the point is on the board and the mask holds it.
proof fn lemma_point_and(m: u64, x: int, y: int)
    requires
        on_board(x, y),
    ensures
        (point_mask(x, y) & m != 0) == bit(m, y * 8 + x),
        (m & point_mask(x, y) != 0) == bit(m, y * 8 + x),
{
    crate::bits::lemma_and_single(m, y * 8 + x);
    let a = m;
    let b = single(y * 8 + x);
    assert((a & b) == (b & a)) by (bit_vector);
}

/// The moves of a pawn of side `black` on `p`: one step forward (down the board for black)
/// onto an empty square, two when it has not moved and both are empty, and one step diagonally
/// onto an enemy or onto the en-passant square when that square is empty.
pub open spec fn pawn_figure_mask(p: Point, black: bool, has_moved: bool, enemy: u64, pieces: u64, ep: Option<Point>) -> u64 {
    let par: int = if black { 1 } else { -1 };
    let bx = p.x as int;
    let by = p.y + par;
    let fwd = if !bit(pieces, by * 8 + bx) {
        point_mask(bx, by) | (if !has_moved && on_board(bx, by + par) && !bit(pieces, (by + par) * 8 + bx) {
            point_mask(bx, by + par)
        } else {
            0u64
        })
    } else {
        0u64
    };
    let dl = if on_board(bx - 1, by) && (bit(enemy, by * 8 + bx - 1) || (!bit(pieces, by * 8 + bx - 1)
        && ep == Some(Point { x: (bx - 1) as i32, y: by as i32 }))) {
        point_mask(bx - 1, by)
    } else {
        0u64
    };
    let dr = if on_board(bx + 1, by) && (bit(enemy, by * 8 + bx + 1) || (!bit(pieces, by * 8 + bx + 1)
        && ep == Some(Point { x: (bx + 1) as i32, y: by as i32 }))) {
        point_mask(bx + 1, by)
    } else {
        0u64
    };
    if !on_board(bx, by) {
        0u64
    } else {
        fwd | dl | dr
    }
}

/// Whether square `s` is a king step from `p` on the board that holds no ally.
pub open spec fn king_step(p: Point, ally: u64, dx: int, dy: int, s: int) -> bool {
    &&& -1 <= dx <= 1
    &&& -1 <= dy <= 1
    &&& !(dx == 0 && dy == 0)
    &&& on_board(p.x + dx, p.y + dy)
    &&& (p.y + dy) * 8 + p.x + dx == s
    &&& !bit(ally, s)
}

/// The knight's jumps.
pub open spec fn knight_offsets() -> Seq<Point> {
    seq![
        Point { x: -2i32, y: -1i32 },
        Point { x: -2i32, y: 1i32 },
        Point { x: -1i32, y: -2i32 },
        Point { x: -1i32, y: 2i32 },
        Point { x: 1i32, y: -2i32 },
        Point { x: 1i32, y: 2i32 },
        Point { x: 2i32, y: -1i32 },
        Point { x: 2i32, y: 1i32 },
    ]
}

/// Whether square `s` is jump `k` of a knight on `p`, on the board, empty or an enemy.
pub open spec fn knight_jump_to(p: Point, enemy: u64, pieces: u64, k: int, s: int) -> bool {
    let o = knight_offsets()[k];
    &&& 0 <= k < 8
    &&& on_board(p.x + o.x, p.y + o.y)
    &&& (p.y + o.y) * 8 + p.x + o.x == s
    &&& (!bit(pieces, s) || bit(enemy, s))
}

/// The diagonal square `d` of a pawn, when it holds an enemy or is the empty en-passant
/// square; else nothing.
fn pawn_diagonal_target(d: Point, enemy_mask: &Mask, piece_mask: &Mask, enpassant: Option<Point>) -> (r: u64)
    ensures
        r == (if on_board(d.x as int, d.y as int) && (bit(enemy_mask.raw, d.y * 8 + d.x) || (!bit(
            piece_mask.raw,
            d.y * 8 + d.x,
        ) && enpassant == Some(d))) {
            point_mask(d.x as int, d.y as int)
        } else {
            0u64
        }),
{
    if d.valid() {
        let pos_mask = Mask::from_point(d);
        proof {
            lemma_point_and(enemy_mask.raw, d.x as int, d.y as int);
            lemma_point_and(piece_mask.raw, d.x as int, d.y as int);
        }
        if enemy_mask.and(pos_mask).any() {
            return pos_mask.raw;
        } else if piece_mask.and(pos_mask).none() {
            match enpassant {
                Some(n) => {
                    if n == d {
                        return pos_mask.raw;
                    }
                },
                None => {},
            }
        }
    }
    0
}

/// The name of a side given as a boolean: `"BLACK"` for `true`, `"WHITE"` for `false`.
pub fn parity_to_string(parity: bool) -> (r: &'static str)
    ensures
        r@ == (if parity { "BLACK"@ } else { "WHITE"@ }),
{
    if parity {
        "BLACK"
    } else {
        "WHITE"
    }
}

impl Rook {
    /// The rook's properties.
    pub fn get_props(&self) -> (r: PieceProperties)
        ensures
            r == self.props,
    {
        self.props
    }

    /// Replace the rook's properties.
    pub fn set_props(&mut self, props: PieceProperties)
        ensures
            final(self).props == props,
    {
        self.props = props;
    }

    /// The squares along the rank and file up to the first piece, that piece when an enemy.
    pub fn get_moves(&self, ally_mask: &Mask, enemy_mask: &Mask, piece_mask: &Mask) -> (r: Mask)
        requires
            roomy(self.props.pos),
        ensures
            r.raw == sliding_mask(self.props.pos, rook_dirs(), enemy_mask.raw, piece_mask.raw),
    {
        let dirs = vec![point(1, 0), point(-1, 0), point(0, 1), point(0, -1)];
        proof {
            assert(dirs@ =~= rook_dirs());
            lemma_unit_dirs_fit(self.props.pos, dirs@);
        }
        sliding_move(self.props.pos, &dirs, enemy_mask, piece_mask)
    }
}

impl Bishop {
    /// The bishop's properties.
    pub fn get_props(&self) -> (r: PieceProperties)
        ensures
            r == self.props,
    {
        self.props
    }

    /// Replace the bishop's properties.
    pub fn set_props(&mut self, props: PieceProperties)
        ensures
            final(self).props == props,
    {
        self.props = props;
    }

    /// The squares along the diagonals up to the first piece, that piece when an enemy.
    pub fn get_moves(&self, ally_mask: &Mask, enemy_mask: &Mask, piece_mask: &Mask) -> (r: Mask)
        requires
            roomy(self.props.pos),
        ensures
            r.raw == sliding_mask(self.props.pos, bishop_dirs(), enemy_mask.raw, piece_mask.raw),
    {
        let dirs = vec![point(1, 1), point(-1, 1), point(-1, -1), point(1, -1)];
        proof {
            assert(dirs@ =~= bishop_dirs());
            lemma_unit_dirs_fit(self.props.pos, dirs@);
        }
        sliding_move(self.props.pos, &dirs, enemy_mask, piece_mask)
    }
}

impl Queen {
    /// The queen's properties.
    pub fn get_props(&self) -> (r: PieceProperties)
        ensures
            r == self.props,
    {
        self.props
    }

    /// Replace the queen's properties.
    pub fn set_props(&mut self, props: PieceProperties)
        ensures
            final(self).props == props,
    {
        self.props = props;
    }

    /// The squares along the diagonals, ranks and files up to the first piece, that piece when
    /// an enemy.
    pub fn get_moves(&self, ally_mask: &Mask, enemy_mask: &Mask, piece_mask: &Mask) -> (r: Mask)
        requires
            roomy(self.props.pos),
        ensures
            r.raw == sliding_mask(self.props.pos, queen_dirs(), enemy_mask.raw, piece_mask.raw),
    {
        let dirs = vec![
            point(1, 1),
            point(-1, 1),
            point(-1, -1),
            point(1, -1),
            point(1, 0),
            point(-1, 0),
            point(0, 1),
            point(0, -1),
        ];
        proof {
            assert(dirs@ =~= queen_dirs());
            lemma_unit_dirs_fit(self.props.pos, dirs@);
        }
        sliding_move(self.props.pos, &dirs, enemy_mask, piece_mask)
    }
}

impl Pawn {
    /// The pawn's properties.
    pub fn get_props(&self) -> (r: PieceProperties)
        ensures
            r == self.props,
    {
        self.props
    }

    /// Replace the pawn's properties.
    pub fn set_props(&mut self, props: PieceProperties)
        ensures
            final(self).props == props,
    {
        self.props = props;
    }

    /// The pawn's moves, the en-passant square being `enpassant`.
    pub fn get_moves(&self, ally_mask: &Mask, enemy_mask: &Mask, piece_mask: &Mask, enpassant: Option<Point>) -> (r: Mask)
        requires
            fits(self.props.pos.y + (if self.props.parity { 1int } else { -1int })),
        ensures
            r.raw == pawn_figure_mask(
                self.props.pos,
                self.props.parity,
                self.props.has_moved,
                enemy_mask.raw,
                piece_mask.raw,
                enpassant,
            ),
    {
        let mut move_mask: u64 = 0;
        let par: i32 = if self.props.parity {
            1
        } else {
            -1
        };
        let basic = point(self.props.pos.x, self.props.pos.y + par);
        if !basic.valid() {
            return Mask { raw: 0 };
        }
        let ghost bx = basic.x as int;
        let ghost by = basic.y as int;
        let basic_mask = Mask::from_point(basic);
        proof {
            lemma_point_and(piece_mask.raw, bx, by);
        }
        if piece_mask.and(basic_mask).none() {
            move_mask = move_mask | basic_mask.raw;
            if !self.props.has_moved {
                let dbl_point = point(basic.x, basic.y + par);
                if dbl_point.valid() {
                    let dbl = Mask::from_point(point(basic.x, basic.y + par));
                    proof {
                        lemma_point_and(piece_mask.raw, bx, by + par);
                    }
                    if piece_mask.and(dbl).none() {
                        move_mask = move_mask | dbl.raw;
                    }
                }
            }
        }
        let ghost fwd = move_mask;
        let diags: [Point; 2] = [point(basic.x - 1, basic.y), point(basic.x + 1, basic.y)];
        let dl = pawn_diagonal_target(diags[0], enemy_mask, piece_mask, enpassant);
        let dr = pawn_diagonal_target(diags[1], enemy_mask, piece_mask, enpassant);
        move_mask = move_mask | dl | dr;
        proof {
            let par: int = if self.props.parity { 1 } else { -1 };
            assert(diags@[0] == Point { x: (bx - 1) as i32, y: by as i32 });
            assert(diags@[1] == Point { x: (bx + 1) as i32, y: by as i32 });
            let bm = point_mask(bx, by);
            let dm = point_mask(bx, by + par);
            assert((0u64 | bm) == bm && (bm | 0u64) == bm) by (bit_vector);
            assert(((0u64 | bm) | dm) == (bm | dm)) by (bit_vector);
        }
        Mask { raw: move_mask }
    }
}

impl King {
    /// The king's properties.
    pub fn get_props(&self) -> (r: PieceProperties)
        ensures
            r == self.props,
    {
        self.props
    }

    /// Replace the king's properties.
    pub fn set_props(&mut self, props: PieceProperties)
        ensures
            final(self).props == props,
    {
        self.props = props;
    }

    /// The neighbouring squares of the board that hold no ally.
    pub fn get_moves(&self, ally_mask: &Mask, enemy_mask: &Mask, piece_mask: &Mask) -> (r: Mask)
        requires
            i32::MIN + 1 <= self.props.pos.x <= i32::MAX - 1,
            i32::MIN + 1 <= self.props.pos.y <= i32::MAX - 1,
        ensures
            r.raw == mask_of(|s: int| exists|dx: int, dy: int| #[trigger] king_step(self.props.pos, ally_mask.raw, dx, dy, s)),
    {
        let p = self.props.pos;
        let ghost ally = ally_mask.raw;
        let mut move_mask: u64 = 0;
        let mut y: i32 = -1;
        while y < 2
            invariant
                -1 <= y <= 2,
                p == self.props.pos,
                ally == ally_mask.raw,
                i32::MIN + 1 <= p.x <= i32::MAX - 1,
                i32::MIN + 1 <= p.y <= i32::MAX - 1,
                forall|s: int| 0 <= s < 64 ==> #[trigger] bit(move_mask, s) == exists|dx: int, dy: int| dy < y && #[trigger] king_step(p, ally, dx, dy, s),
            decreases 2 - y,
        {
            let mut x: i32 = -1;
            while x < 2
                invariant
                    -1 <= y <= 1,
                    -1 <= x <= 2,
                    p == self.props.pos,
                    ally == ally_mask.raw,
                    i32::MIN + 1 <= p.x <= i32::MAX - 1,
                    i32::MIN + 1 <= p.y <= i32::MAX - 1,
                    forall|s: int| 0 <= s < 64 ==> #[trigger] bit(move_mask, s) == exists|dx: int, dy: int| (dy < y || (dy == y && dx < x)) && #[trigger] king_step(p, ally, dx, dy, s),
                decreases 2 - x,
            {
                if x == 0 && y == 0 {
                    proof {
                        assert forall|s: int| 0 <= s < 64 implies #[trigger] bit(move_mask, s) == exists|dx: int, dy: int| (dy < y || (dy == y && dx < x + 1)) && #[trigger] king_step(p, ally, dx, dy, s) by {
                            if exists|dx: int, dy: int| (dy < y || (dy == y && dx < x + 1)) && #[trigger] king_step(p, ally, dx, dy, s) {
                                let (dx, dy) = choose|dx: int, dy: int| (dy < y || (dy == y && dx < x + 1)) && #[trigger] king_step(p, ally, dx, dy, s);
                                assert(dy < y || (dy == y && dx < x));
                            }
                        }
                    }
                    x = x + 1;
                    continue;
                }
                let pos = p.plus(&point(x, y));
                let ghost before = move_mask;
                if pos.valid() {
                    let pos_mask = Mask::from_point(pos);
                    proof {
                        lemma_point_and(ally_mask.raw, pos.x as int, pos.y as int);
                    }
                    if ally_mask.and(pos_mask).none() {
                        move_mask = move_mask | pos_mask.raw;
                    }
                }
                proof {
                    let sq = (p.y + y) * 8 + p.x + x;
                    assert forall|s: int| 0 <= s < 64 implies #[trigger] bit(move_mask, s) == exists|dx: int, dy: int| (dy < y || (dy == y && dx < x + 1)) && #[trigger] king_step(p, ally, dx, dy, s) by {
                        if king_step(p, ally, x as int, y as int, s) {
                            assert(bit(move_mask, s));
                        }
                        if exists|dx: int, dy: int| (dy < y || (dy == y && dx < x + 1)) && #[trigger] king_step(p, ally, dx, dy, s) {
                            let (dx, dy) = choose|dx: int, dy: int| (dy < y || (dy == y && dx < x + 1)) && #[trigger] king_step(p, ally, dx, dy, s);
                            if dy == y && dx == x {
                            } else {
                                assert(dy < y || (dy == y && dx < x));
                                assert(bit(before, s));
                            }
                        }
                        if bit(move_mask, s) && !bit(before, s) {
                            assert(king_step(p, ally, x as int, y as int, s));
                        }
                    }
                }
                x = x + 1;
            }
            proof {
                assert forall|s: int| 0 <= s < 64 implies #[trigger] bit(move_mask, s) == exists|dx: int, dy: int| dy < y + 1 && #[trigger] king_step(p, ally, dx, dy, s) by {
                    if exists|dx: int, dy: int| dy < y + 1 && #[trigger] king_step(p, ally, dx, dy, s) {
                        let (dx, dy) = choose|dx: int, dy: int| dy < y + 1 && #[trigger] king_step(p, ally, dx, dy, s);
                        assert(dy < y || (dy == y && dx < 2));
                    }
                }
            }
            y = y + 1;
        }
        proof {
            assert forall|s: int| 0 <= s < 64 implies #[trigger] bit(move_mask, s) == exists|dx: int, dy: int| #[trigger] king_step(p, ally, dx, dy, s) by {
                if exists|dx: int, dy: int| #[trigger] king_step(p, ally, dx, dy, s) {
                    let (dx, dy) = choose|dx: int, dy: int| #[trigger] king_step(p, ally, dx, dy, s);
                    assert(dy < 2);
                }
            }
            lemma_is_mask_of(move_mask, |s: int| exists|dx: int, dy: int| #[trigger] king_step(p, ally, dx, dy, s));
        }
        Mask { raw: move_mask }
    }
}

impl Knight {
    /// The knight's properties.
    pub fn get_props(&self) -> (r: PieceProperties)
        ensures
            r == self.props,
    {
        self.props
    }

    /// Replace the knight's properties.
    pub fn set_props(&mut self, props: PieceProperties)
        ensures
            final(self).props == props,
    {
        self.props = props;
    }

    /// The squares of the board a knight's jump away that are empty or hold an enemy.
    pub fn get_moves(&self, ally_mask: &Mask, enemy_mask: &Mask, piece_mask: &Mask) -> (r: Mask)
        requires
            i32::MIN + 2 <= self.props.pos.x <= i32::MAX - 2,
            i32::MIN + 2 <= self.props.pos.y <= i32::MAX - 2,
        ensures
            r.raw == mask_of(|s: int| exists|k: int| #[trigger] knight_jump_to(self.props.pos, enemy_mask.raw, piece_mask.raw, k, s)),
    {
        let p = self.props.pos;
        let ghost enemy = enemy_mask.raw;
        let ghost pieces = piece_mask.raw;
        let mut move_mask: u64 = 0;
        let offsets = [
            point(-2, -1),
            point(-2, 1),
            point(-1, -2),
            point(-1, 2),
            point(1, -2),
            point(1, 2),
            point(2, -1),
            point(2, 1),
        ];
        proof {
            assert(offsets@ =~= knight_offsets());
        }
        let mut k: usize = 0;
        while k < 8
            invariant
                k <= 8,
                p == self.props.pos,
                enemy == enemy_mask.raw,
                pieces == piece_mask.raw,
                offsets@ == knight_offsets(),
                i32::MIN + 2 <= p.x <= i32::MAX - 2,
                i32::MIN + 2 <= p.y <= i32::MAX - 2,
                forall|s: int| 0 <= s < 64 ==> #[trigger] bit(move_mask, s) == exists|kk: int| kk < k && #[trigger] knight_jump_to(p, enemy, pieces, kk, s),
            decreases 8 - k,
        {
            let offset = offsets[k];
            assert(-2 <= offset.x <= 2 && -2 <= offset.y <= 2);
            let pos = p.plus(&offset);
            let ghost before = move_mask;
            if pos.valid() {
                let pos_mask = Mask::from_point(pos);
                proof {
                    lemma_point_and(piece_mask.raw, pos.x as int, pos.y as int);
                    lemma_point_and(enemy_mask.raw, pos.x as int, pos.y as int);
                }
                if piece_mask.and(pos_mask).any() {
                    if enemy_mask.and(pos_mask).any() {
                        move_mask = move_mask | pos_mask.raw;
                    }
                } else {
                    move_mask = move_mask | pos_mask.raw;
                }
            }
            proof {
                assert forall|s: int| 0 <= s < 64 implies #[trigger] bit(move_mask, s) == exists|kk: int| kk < k + 1 && #[trigger] knight_jump_to(p, enemy, pieces, kk, s) by {
                    if knight_jump_to(p, enemy, pieces, k as int, s) {
                        assert(bit(move_mask, s));
                    }
                    if exists|kk: int| kk < k + 1 && #[trigger] knight_jump_to(p, enemy, pieces, kk, s) {
                        let kk = choose|kk: int| kk < k + 1 && #[trigger] knight_jump_to(p, enemy, pieces, kk, s);
                        if kk < k {
                            assert(bit(before, s));
                        }
                    }
                    if bit(move_mask, s) && !bit(before, s) {
                        assert(knight_jump_to(p, enemy, pieces, k as int, s));
                    }
                }
            }
            k = k + 1;
        }
        proof {
            assert forall|s: int| 0 <= s < 64 implies #[trigger] bit(move_mask, s) == exists|kk: int| #[trigger] knight_jump_to(p, enemy, pieces, kk, s) by {
                if exists|kk: int| #[trigger] knight_jump_to(p, enemy, pieces, kk, s) {
                    let kk = choose|kk: int| #[trigger] knight_jump_to(p, enemy, pieces, kk, s);
                    assert(kk < 8);
                }
            }
            lemma_is_mask_of(move_mask, |s: int| exists|kk: int| #[trigger] knight_jump_to(p, enemy, pieces, kk, s));
        }
        Mask { raw: move_mask }
    }
}

} // verus!
