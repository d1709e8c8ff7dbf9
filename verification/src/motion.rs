use vstd::prelude::*;
use crate::mask::Mask;
use crate::piece::Parity;

verus! {

/// A move of the piece on square `from` to square `to`; `65 -> 65` is the null move.
#[derive(Clone, Copy, Debug, PartialEq, Eq, Structural)]
pub struct Motion {
    pub from: usize,
    pub to: usize,
}

impl Default for Motion {
    fn default() -> (r: Motion)
        ensures
            r.from == 65 && r.to == 65,
    {
        Motion { from: 65, to: 65 }
    }
}

/// The moves of both sides: per origin square the moves (`*_moves`) and the squares covered
/// in defence of an own piece (`*_defensive_moves`), the union of their targets per square
/// (`*_piecewise_flat`) and overall (`*_flat`), and all moves in one list (`*_vect`).
pub struct MotionSet {
    pub white_moves: Vec<Vec<Motion>>,
    pub white_flat: Mask,
    pub white_piecewise_flat: [Mask; 64],
    pub white_defensive_moves: Vec<Vec<Motion>>,
    pub white_defensive_flat: Mask,
    pub white_defensive_piecewise_flat: [Mask; 64],
    pub white_vect: Vec<Motion>,
    pub black_moves: Vec<Vec<Motion>>,
    pub black_flat: Mask,
    pub black_piecewise_flat: [Mask; 64],
    pub black_defensive_moves: Vec<Vec<Motion>>,
    pub black_defensive_flat: Mask,
    pub black_defensive_piecewise_flat: [Mask; 64],
    pub black_vect: Vec<Motion>,
}

/// The moves of each of the 64 squares, as sequences.
pub open spec fn lists_view(v: Vec<Vec<Motion>>) -> Seq<Seq<Motion>> {
    v@.map_values(|l: Vec<Motion>| l@)
}

impl MotionSet {
    /// Every per-square table has one entry per square.
    pub open spec fn wf(&self) -> bool {
        &&& self.white_moves@.len() == 64
        &&& self.white_defensive_moves@.len() == 64
        &&& self.black_moves@.len() == 64
        &&& self.black_defensive_moves@.len() == 64
    }

    /// The moves of one side per square (white for `WHITE`, black for every other side).
    pub fn parity_moves(&self, parity: Parity) -> (r: Vec<Vec<Motion>>)
        ensures
            lists_view(r) == (if parity == Parity::WHITE {
                lists_view(self.white_moves)
            } else {
                lists_view(self.black_moves)
            }),
    {
        if parity == Parity::WHITE {
            copy_lists(&self.white_moves)
        } else {
            copy_lists(&self.black_moves)
        }
    }

    /// The squares reached by the moves of one side.
    pub fn parity_flat(&self, parity: Parity) -> (r: Mask)
        ensures
            r == (if parity == Parity::WHITE { self.white_flat } else { self.black_flat }),
    {
        if parity == Parity::WHITE {
            self.white_flat
        } else {
            self.black_flat
        }
    }

    /// Per square, the squares reached by the moves of one side.
    pub fn parity_piecewise_flat(&self, parity: Parity) -> (r: [Mask; 64])
        ensures
            r@ == (if parity == Parity::WHITE {
                self.white_piecewise_flat@
            } else {
                self.black_piecewise_flat@
            }),
    {
        if parity == Parity::WHITE {
            self.white_piecewise_flat
        } else {
            self.black_piecewise_flat
        }
    }

    /// All moves of one side in one list.
    pub fn parity_vect(&self, parity: Parity) -> (r: Vec<Motion>)
        ensures
            r@ == (if parity == Parity::WHITE { self.white_vect@ } else { self.black_vect@ }),
    {
        if parity == Parity::WHITE {
            copy_list(&self.white_vect)
        } else {
            copy_list(&self.black_vect)
        }
    }

    /// The defensive moves of one side per square.
    pub fn parity_defense_moves(&self, parity: Parity) -> (r: Vec<Vec<Motion>>)
        ensures
            lists_view(r) == (if parity == Parity::WHITE {
                lists_view(self.white_defensive_moves)
            } else {
                lists_view(self.black_defensive_moves)
            }),
    {
        if parity == Parity::WHITE {
            copy_lists(&self.white_defensive_moves)
        } else {
            copy_lists(&self.black_defensive_moves)
        }
    }

    /// The squares one side covers in defence.
    pub fn parity_defense_flat(&self, parity: Parity) -> (r: Mask)
        ensures
            r == (if parity == Parity::WHITE {
                self.white_defensive_flat
            } else {
                self.black_defensive_flat
            }),
    {
        if parity == Parity::WHITE {
            self.white_defensive_flat
        } else {
            self.black_defensive_flat
        }
    }

    /// Per square, the squares one side covers in defence.
    pub fn parity_defense_piecewise_flat(&self, parity: Parity) -> (r: [Mask; 64])
        ensures
            r@ == (if parity == Parity::WHITE {
                self.white_defensive_piecewise_flat@
            } else {
                self.black_defensive_piecewise_flat@
            }),
    {
        if parity == Parity::WHITE {
            self.white_defensive_piecewise_flat
        } else {
            self.black_defensive_piecewise_flat
        }
    }
}

/// Whether two move sets hold the same moves and masks.
pub open spec fn same_motions(a: &MotionSet, b: &MotionSet) -> bool {
    &&& lists_view(a.white_moves) == lists_view(b.white_moves)
    &&& a.white_flat == b.white_flat
    &&& a.white_piecewise_flat@ == b.white_piecewise_flat@
    &&& lists_view(a.white_defensive_moves) == lists_view(b.white_defensive_moves)
    &&& a.white_defensive_flat == b.white_defensive_flat
    &&& a.white_defensive_piecewise_flat@ == b.white_defensive_piecewise_flat@
    &&& a.white_vect@ == b.white_vect@
    &&& lists_view(a.black_moves) == lists_view(b.black_moves)
    &&& a.black_flat == b.black_flat
    &&& a.black_piecewise_flat@ == b.black_piecewise_flat@
    &&& lists_view(a.black_defensive_moves) == lists_view(b.black_defensive_moves)
    &&& a.black_defensive_flat == b.black_defensive_flat
    &&& a.black_defensive_piecewise_flat@ == b.black_defensive_piecewise_flat@
    &&& a.black_vect@ == b.black_vect@
}

impl MotionSet {
    /// A copy of the move set.
    pub fn copy(&self) -> (r: MotionSet)
        ensures
            same_motions(&r, self),
    {
        MotionSet {
            white_moves: copy_lists(&self.white_moves),
            white_flat: self.white_flat,
            white_piecewise_flat: self.white_piecewise_flat,
            white_defensive_moves: copy_lists(&self.white_defensive_moves),
            white_defensive_flat: self.white_defensive_flat,
            white_defensive_piecewise_flat: self.white_defensive_piecewise_flat,
            white_vect: copy_list(&self.white_vect),
            black_moves: copy_lists(&self.black_moves),
            black_flat: self.black_flat,
            black_piecewise_flat: self.black_piecewise_flat,
            black_defensive_moves: copy_lists(&self.black_defensive_moves),
            black_defensive_flat: self.black_defensive_flat,
            black_defensive_piecewise_flat: self.black_defensive_piecewise_flat,
            black_vect: copy_list(&self.black_vect),
        }
    }
}

impl Default for MotionSet {
    fn default() -> (r: MotionSet)
        ensures
            r.wf(),
            forall|i: int| 0 <= i < 64 ==> (#[trigger] r.white_moves@[i])@.len() == 0,
            forall|i: int| 0 <= i < 64 ==> (#[trigger] r.black_moves@[i])@.len() == 0,
            forall|i: int| 0 <= i < 64 ==> (#[trigger] r.white_defensive_moves@[i])@.len() == 0,
            forall|i: int| 0 <= i < 64 ==> (#[trigger] r.black_defensive_moves@[i])@.len() == 0,
            forall|i: int| 0 <= i < 64 ==> (#[trigger] r.white_piecewise_flat@[i]).raw == 0,
            forall|i: int| 0 <= i < 64 ==> (#[trigger] r.black_piecewise_flat@[i]).raw == 0,
            forall|i: int| 0 <= i < 64 ==> (#[trigger] r.white_defensive_piecewise_flat@[i]).raw == 0,
            forall|i: int| 0 <= i < 64 ==> (#[trigger] r.black_defensive_piecewise_flat@[i]).raw == 0,
            r.white_flat.raw == 0 && r.black_flat.raw == 0,
            r.white_defensive_flat.raw == 0 && r.black_defensive_flat.raw == 0,
            r.white_vect@.len() == 0 && r.black_vect@.len() == 0,
    {
        MotionSet {
            white_moves: empty_lists(),
            white_flat: Mask { raw: 0 },
            white_piecewise_flat: [Mask { raw: 0 }; 64],
            white_defensive_moves: empty_lists(),
            white_defensive_flat: Mask { raw: 0 },
            white_defensive_piecewise_flat: [Mask { raw: 0 }; 64],
            white_vect: Vec::new(),
            black_moves: empty_lists(),
            black_flat: Mask { raw: 0 },
            black_piecewise_flat: [Mask { raw: 0 }; 64],
            black_defensive_moves: empty_lists(),
            black_defensive_flat: Mask { raw: 0 },
            black_defensive_piecewise_flat: [Mask { raw: 0 }; 64],
            black_vect: Vec::new(),
        }
    }
}

/// One empty move list per square.
pub fn empty_lists() -> (r: Vec<Vec<Motion>>)
    ensures
        r@.len() == 64,
        forall|i: int| 0 <= i < 64 ==> (#[trigger] r@[i])@.len() == 0,
{
    let mut v: Vec<Vec<Motion>> = Vec::new();
    let mut i: usize = 0;
    while i < 64
        invariant
            i <= 64,
            v@.len() == i,
            forall|k: int| 0 <= k < i ==> (#[trigger] v@[k])@.len() == 0,
        decreases 64 - i,
    {
        v.push(Vec::new());
        i = i + 1;
    }
    v
}

/// A copy of a move list.
pub fn copy_list(v: &Vec<Motion>) -> (r: Vec<Motion>)
    ensures
        r@ == v@,
{
    let mut out: Vec<Motion> = Vec::new();
    let mut i: usize = 0;
    while i < v.len()
        invariant
            i <= v@.len(),
            out@ == v@.subrange(0, i as int),
        decreases v@.len() - i,
    {
        out.push(v[i]);
        i = i + 1;
        proof {
            assert(out@ =~= v@.subrange(0, i as int));
        }
    }
    proof {
        assert(v@.subrange(0, v@.len() as int) =~= v@);
    }
    out
}

/// A copy of a table of move lists.
pub fn copy_lists(v: &Vec<Vec<Motion>>) -> (r: Vec<Vec<Motion>>)
    ensures
        lists_view(r) == lists_view(*v),
{
    let mut out: Vec<Vec<Motion>> = Vec::new();
    let mut i: usize = 0;
    while i < v.len()
        invariant
            i <= v@.len(),
            out@.len() == i,
            forall|k: int| 0 <= k < i ==> (#[trigger] out@[k])@ == v@[k]@,
        decreases v@.len() - i,
    {
        out.push(copy_list(&v[i]));
        i = i + 1;
    }
    proof {
        assert(lists_view(out) =~= lists_view(*v));
    }
    out
}

} // verus!
