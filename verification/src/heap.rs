use vstd::prelude::*;
use vstd::multiset::Multiset;
use crate::motion::Motion;

verus! {

broadcast use vstd::seq_lib::group_to_multiset_ensures;

/// A move with its evaluation and the position key it leads to.
#[derive(Clone, Copy, Debug)]
pub struct EvaluatedMotion {
    pub evaluation: i32,
    pub motion: Motion,
    pub key: u64,
}

impl Default for EvaluatedMotion {
    fn default() -> (r: EvaluatedMotion)
        ensures
            r.evaluation == 0 && r.key == 0 && r.motion.from == 65 && r.motion.to == 65,
    {
        EvaluatedMotion { evaluation: 0, key: 0, motion: Motion { from: 65, to: 65 } }
    }
}

impl EvaluatedMotion {
    /// A copy of the move with the key cleared, as the engine clones evaluated moves.
    pub fn clone_without_key(&self) -> (r: EvaluatedMotion)
        ensures
            r.evaluation == self.evaluation && r.motion == self.motion && r.key == 0,
    {
        EvaluatedMotion { evaluation: self.evaluation, motion: self.motion, key: 0 }
    }

    /// Evaluated moves are equal when their evaluations are.
    pub fn eq_eval(&self, other: &EvaluatedMotion) -> (r: bool)
        ensures
            r == (self.evaluation == other.evaluation),
    {
        self.evaluation == other.evaluation
    }

    /// Evaluated moves are ordered by their evaluations: -1, 0 or 1.
    pub fn compare_eval(&self, other: &EvaluatedMotion) -> (r: i8)
        ensures
            r == (if self.evaluation < other.evaluation {
                -1i8
            } else if self.evaluation == other.evaluation {
                0i8
            } else {
                1i8
            }),
    {
        if self.evaluation < other.evaluation {
            -1
        } else if self.evaluation == other.evaluation {
            0
        } else {
            1
        }
    }
}

/// The parent of node `i > 0` of a binary heap laid out in an array.
pub open spec fn parent_of(i: int) -> int {
    (i - 1) / 2
}

/// The max-heap order: no node outranks its parent.
pub open spec fn heap_ordered(s: Seq<EvaluatedMotion>) -> bool {
    forall|j: int| 0 < j < s.len() ==> #[trigger] s[parent_of(j)].evaluation >= s[j].evaluation
}

/// The heap order, except possibly between node `i` and its parent, whose parent in turn
/// outranks the children of `i` (the state while a new node climbs).
pub open spec fn ordered_except_up(s: Seq<EvaluatedMotion>, i: int) -> bool {
    &&& forall|j: int|
        0 < j < s.len() && j != i ==> #[trigger] s[parent_of(j)].evaluation >= s[j].evaluation
    &&& forall|j: int|
        0 < j < s.len() && parent_of(j) == i && i > 0 ==> s[parent_of(i)].evaluation
            >= #[trigger] s[j].evaluation
}

/// Whether node `j` lies in the subtree rooted at node `i` (node `i` included).
pub open spec fn in_subtree(i: int, j: int) -> bool
    decreases j,
{
    if i < 0 || j < i {
        false
    } else if j == i {
        true
    } else {
        j > 0 && in_subtree(i, parent_of(j))
    }
}

/// The heap order between every node of the subtree rooted at `i` and its children.
pub open spec fn subtree_ordered(s: Seq<EvaluatedMotion>, i: int) -> bool {
    forall|j: int|
        0 < j < s.len() && in_subtree(i, parent_of(j)) ==> #[trigger] s[parent_of(j)].evaluation
            >= s[j].evaluation
}

/// A subtree of a node of the subtree rooted at `a` lies in it.
pub proof fn lemma_subtree_trans(a: int, b: int, c: int)
    requires
        in_subtree(a, b),
        in_subtree(b, c),
    ensures
        in_subtree(a, c),
    decreases c,
{
    if c != b {
        lemma_subtree_trans(a, b, parent_of(c));
    }
}

/// A node of the subtree rooted at `i`, other than `i`, lies under one of its two children.
pub proof fn lemma_subtree_split(i: int, p: int)
    requires
        in_subtree(i, p),
        p != i,
    ensures
        in_subtree(2 * i + 1, p) || in_subtree(2 * i + 2, p),
    decreases p,
{
    let q = parent_of(p);
    if q != i {
        lemma_subtree_split(i, q);
    }
}

/// Two subtrees that share a node are nested.
pub proof fn lemma_subtree_chain(a: int, b: int, x: int)
    requires
        in_subtree(a, x),
        in_subtree(b, x),
    ensures
        in_subtree(a, b) || in_subtree(b, a),
    decreases x,
{
    if x != a && x != b {
        lemma_subtree_chain(a, b, parent_of(x));
    }
}

/// Every node lies in the subtree of the root.
pub proof fn lemma_subtree_root(j: int)
    requires
        0 <= j,
    ensures
        in_subtree(0, j),
    decreases j,
{
    if j > 0 {
        lemma_subtree_root(parent_of(j));
    }
}

/// In an ordered subtree no node outranks the subtree's root.
pub proof fn lemma_subtree_max(s: Seq<EvaluatedMotion>, m: int, k: int)
    requires
        subtree_ordered(s, m),
        in_subtree(m, k),
        k < s.len(),
    ensures
        s[k].evaluation <= s[m].evaluation,
    decreases k,
{
    if k != m {
        lemma_subtree_max(s, m, parent_of(k));
        assert(s[parent_of(k)].evaluation >= s[k].evaluation);
    }
}

/// The order of a subtree holds in the subtrees of its root's children.
pub proof fn lemma_subtree_ordered_child(s: Seq<EvaluatedMotion>, m: int, c: int)
    requires
        subtree_ordered(s, m),
        m >= 0,
        c == 2 * m + 1 || c == 2 * m + 2,
    ensures
        subtree_ordered(s, c),
{
    assert(parent_of(c) == m);
    assert(in_subtree(m, m));
    assert(in_subtree(m, c));
    assert forall|j: int| 0 < j < s.len() && in_subtree(c, parent_of(j)) implies #[trigger] s[parent_of(j)].evaluation >= s[j].evaluation by {
        lemma_subtree_trans(m, c, parent_of(j));
    }
}

/// The largest evaluation that a heap holds sits at its root.
pub proof fn lemma_root_is_max(s: Seq<EvaluatedMotion>, i: int)
    requires
        heap_ordered(s),
        0 <= i < s.len(),
    ensures
        s[0].evaluation >= s[i].evaluation,
    decreases i,
{
    if i > 0 {
        assert(s[parent_of(i)].evaluation >= s[i].evaluation);
        lemma_root_is_max(s, parent_of(i));
    }
}

/// A binary max-heap of evaluated moves, ordered by evaluation.
pub struct Heap {
    store: Vec<EvaluatedMotion>,
    pub size: usize,
}

impl Default for Heap {
    fn default() -> (r: Heap)
        ensures
            r.wf(),
            r@ =~= Multiset::empty(),
            r.len_spec() == 0,
    {
        Heap { store: Vec::new(), size: 0 }
    }
}

impl View for Heap {
    type V = Multiset<EvaluatedMotion>;

    /// The evaluated moves that the heap holds.
    closed spec fn view(&self) -> Multiset<EvaluatedMotion> {
        self.store@.to_multiset()
    }
}

impl Heap {
    /// The heap holds `size` moves in max-heap order.
    pub closed spec fn wf(&self) -> bool {
        &&& self.store@.len() == self.size
        &&& self.size < usize::MAX / 4
        &&& heap_ordered(self.store@)
    }

    /// The moves in heap order, the root first.
    pub closed spec fn items(&self) -> Seq<EvaluatedMotion> {
        self.store@
    }

    /// The number of moves the heap counts: its `size`.
    pub closed spec fn len_spec(&self) -> int {
        self.size as int
    }

    /// The heap's `size`, for verified code outside this module, to which the field is not
    /// visible.
    pub fn len(&self) -> (r: usize)
        ensures
            r == self.len_spec(),
    {
        self.size
    }

    /// The move at position `i` of the heap (its root is position 0), as indexing the heap
    /// gives it.
    pub fn get(&self, i: usize) -> (r: EvaluatedMotion)
        requires
            self.wf(),
            i < self.len_spec(),
        ensures
            r == self.items()[i as int],
    {
        self.store[i]
    }

    /// The number of moves held.
    pub proof fn lemma_size(&self)
        requires
            self.wf(),
        ensures
            self@.len() == self.len_spec(),
    {
    }

    /// The node at position `i` (its root is position 0).
    pub closed spec fn at(&self, i: int) -> EvaluatedMotion {
        self.store@[i]
    }

    /// The parent position of node `i`.
    pub fn parent(i: usize) -> (r: usize)
        requires
            i >= 1,
        ensures
            r == parent_of(i as int),
    {
        (i - 1) / 2
    }

    /// The left child position of node `i`.
    pub fn left(i: usize) -> (r: usize)
        requires
            2 * i + 1 <= usize::MAX,
        ensures
            r == 2 * i + 1,
    {
        (2 * i) + 1
    }

    /// The right child position of node `i`.
    pub fn right(i: usize) -> (r: usize)
        requires
            2 * i + 2 <= usize::MAX,
        ensures
            r == 2 * i + 2,
    {
        (2 * i) + 2
    }

    fn swap(&mut self, a: usize, b: usize)
        requires
            a < old(self).items().len(),
            b < old(self).items().len(),
        ensures
            final(self).len_spec() == old(self).len_spec(),
            final(self).items() == old(self).items().update(a as int, old(self).items()[b as int]).update(
                b as int,
                old(self).items()[a as int],
            ),
            final(self).items().to_multiset() == old(self).items().to_multiset(),
    {
        let ta = self.store[a];
        let tb = self.store[b];
        let ghost s0 = self.store@;
        self.store.set(a, tb);
        self.store.set(b, ta);
        proof {
            let s1 = s0.update(a as int, tb);
            vstd::seq_lib::to_multiset_update(s0, a as int, tb);
            vstd::seq_lib::to_multiset_update(s1, b as int, ta);
            assert(s0.to_multiset().insert(tb).remove(ta) =~= s0.to_multiset().remove(ta).insert(
                tb,
            ).remove(tb).insert(ta).insert(tb).remove(ta)) by {
                broadcast use vstd::multiset::group_multiset_axioms;

            }
            assert(self.store@.to_multiset() =~= s0.to_multiset()) by {
                broadcast use vstd::multiset::group_multiset_axioms;

                assert(s0.to_multiset().count(ta) >= 1);
                assert(s0.to_multiset().count(tb) >= 1);
            }
        }
    }

    /// Let node `i` climb until its parent outranks it.
    pub fn bubble(&mut self, i: usize)
        requires
            i < old(self).items().len(),
            old(self).items().len() < usize::MAX / 4,
            ordered_except_up(old(self).items(), i as int),
        ensures
            final(self).len_spec() == old(self).len_spec(),
            final(self).items().len() == old(self).items().len(),
            heap_ordered(final(self).items()),
            final(self).items().to_multiset() == old(self).items().to_multiset(),
    {
        let mut i = i;
        while i > 0
            invariant
                i < self.store@.len(),
                self.store@.len() == old(self).store@.len(),
                self.size == old(self).size,
                ordered_except_up(self.store@, i as int),
                self.store@.to_multiset() == old(self).store@.to_multiset(),
            decreases i,
        {
            let p = Heap::parent(i);
            if self.store[p].evaluation >= self.store[i].evaluation {
                proof {
                    assert forall|j: int| 0 < j < self.store@.len() implies #[trigger] self.store@[parent_of(
                        j,
                    )].evaluation >= self.store@[j].evaluation by {
                        if j == i {
                        }
                    }
                }
                return;
            }
            let ghost s0 = self.store@;
            self.swap(p, i);
            proof {
                let s = self.store@;
                assert forall|j: int|
                    0 < j < s.len() && j != p implies #[trigger] s[parent_of(j)].evaluation
                    >= s[j].evaluation by {
                    if j == i as int {
                    } else if parent_of(j) == i as int {
                        assert(s0[parent_of(j)].evaluation >= s0[j].evaluation || parent_of(j) == i);
                    } else if parent_of(j) == p as int {
                        assert(s0[parent_of(j)].evaluation >= s0[j].evaluation);
                    } else if j == p as int {
                    } else {
                        assert(s0[parent_of(j)].evaluation >= s0[j].evaluation);
                    }
                }
                assert forall|j: int|
                    0 < j < s.len() && parent_of(j) == p && p > 0 implies s[parent_of(p as int)].evaluation
                    >= #[trigger] s[j].evaluation by {
                    assert(s0[parent_of(p as int)].evaluation >= s0[p as int].evaluation);
                    if j != i as int {
                        assert(s0[parent_of(j)].evaluation >= s0[j].evaluation);
                    }
                }
            }
            i = p;
        }
    }

    /// Whether the heap holds nothing.
    pub fn empty(&self) -> (r: bool)
        ensures
            r == (self.len_spec() == 0),
    {
        self.size == 0
    }

    /// Let node `i` sink until it outranks its children. The subtrees of its children must be
    /// in order; afterwards the subtree of `i` is in order, holds the moves it held, and the
    /// nodes outside it are untouched.
    pub fn sift(&mut self, i: usize)
        requires
            2 * i + 2 <= usize::MAX,
            old(self).items().len() == old(self).len_spec(),
            old(self).len_spec() < usize::MAX / 4,
            subtree_ordered(old(self).items(), 2 * i + 1),
            subtree_ordered(old(self).items(), 2 * i + 2),
        ensures
            final(self).len_spec() == old(self).len_spec(),
            final(self).items().len() == old(self).items().len(),
            subtree_ordered(final(self).items(), i as int),
            forall|j: int|
                0 <= j < old(self).items().len() && !in_subtree(i as int, j) ==> #[trigger] final(self).items()[j] == old(self).items()[j],
            forall|j: int|
                0 <= j < old(self).items().len() && in_subtree(i as int, j) ==> exists|k: int|
                    0 <= k < old(self).items().len() && in_subtree(i as int, k) && #[trigger] final(self).items()[j] == old(self).items()[k],
            final(self).items().to_multiset() == old(self).items().to_multiset(),
        decreases usize::MAX - i,
    {
        if self.size == 0 {
            return;
        }
        let ghost s0 = self.store@;
        let ghost n = s0.len();
        let mut max = i;
        let l = Heap::left(i);
        if l < self.size && self.store[l].evaluation > self.store[max].evaluation {
            max = l;
        }
        let r = Heap::right(i);
        if r < self.size && self.store[r].evaluation > self.store[max].evaluation {
            max = r;
        }
        proof {
            assert(in_subtree(i as int, i as int));
        }
        if i != max {
            self.swap(i, max);
            let ghost s1 = self.store@;
            let ghost o: int = if max == l { r as int } else { l as int };
            proof {
                assert(in_subtree(i as int, max as int));
                lemma_subtree_ordered_child(s0, max as int, 2 * max + 1);
                lemma_subtree_ordered_child(s0, max as int, 2 * max + 2);
                assert forall|c: int| c == 2 * max + 1 || c == 2 * max + 2 implies subtree_ordered(s1, c) by {
                    lemma_subtree_ordered_child(s0, max as int, c);
                    assert forall|j: int| 0 < j < s1.len() && in_subtree(c, parent_of(j)) implies #[trigger] s1[parent_of(j)].evaluation >= s1[j].evaluation by {
                        assert(s0[parent_of(j)].evaluation >= s0[j].evaluation);
                    }
                }
            }
            self.sift(max);
            proof {
                let s2 = self.store@;
                assert(s1[i as int] == s0[max as int]);
                assert(s1[max as int] == s0[i as int]);
                assert(!in_subtree(max as int, i as int));
                assert(!in_subtree(max as int, o));
                assert(!in_subtree(o, max as int));
                assert forall|j: int| 0 <= j < n && !in_subtree(i as int, j) implies #[trigger] s2[j] == s0[j] by {
                    if in_subtree(max as int, j) {
                        lemma_subtree_trans(i as int, max as int, j);
                    }
                }
                assert forall|j: int| 0 <= j < n && in_subtree(i as int, j) implies exists|k: int|
                    0 <= k < n && in_subtree(i as int, k) && #[trigger] s2[j] == s0[k] by {
                    if in_subtree(max as int, j) {
                        let k = choose|k: int| 0 <= k < n && in_subtree(max as int, k) && s2[j] == s1[k];
                        lemma_subtree_trans(i as int, max as int, k);
                        if k == max as int {
                            assert(s2[j] == s0[i as int]);
                        } else {
                            assert(s2[j] == s0[k]);
                        }
                    } else if j == i as int {
                        assert(s2[j] == s0[max as int]);
                    } else {
                        assert(s2[j] == s0[j]);
                    }
                }
                assert forall|j: int| 0 < j < n && in_subtree(i as int, parent_of(j)) implies #[trigger] s2[parent_of(j)].evaluation >= s2[j].evaluation by {
                    let p = parent_of(j);
                    if p == i as int {
                        assert(s2[p] == s0[max as int]);
                        if j == max as int {
                            let k = choose|k: int| 0 <= k < n && in_subtree(max as int, k) && s2[j] == s1[k];
                            if k != max as int {
                                lemma_subtree_max(s0, max as int, k);
                            }
                        } else {
                            assert(j == o);
                            if in_subtree(max as int, j) {
                                lemma_subtree_chain(max as int, o, j);
                            }
                            assert(s2[j] == s0[j]);
                        }
                    } else {
                        lemma_subtree_split(i as int, p);
                        if !in_subtree(max as int, p) {
                            assert(in_subtree(o, p));
                            assert(in_subtree(o, j));
                            if in_subtree(max as int, j) {
                                lemma_subtree_chain(max as int, o, j);
                            }
                            assert(s2[p] == s0[p]);
                            assert(s2[j] == s0[j]);
                            assert(s0[parent_of(j)].evaluation >= s0[j].evaluation);
                        }
                    }
                }
            }
        } else {
            proof {
                assert forall|j: int| 0 < j < n && in_subtree(i as int, parent_of(j)) implies #[trigger] s0[parent_of(j)].evaluation >= s0[j].evaluation by {
                    let p = parent_of(j);
                    if p != i as int {
                        lemma_subtree_split(i as int, p);
                    }
                }
                assert forall|j: int| 0 <= j < n && in_subtree(i as int, j) implies exists|k: int|
                    0 <= k < n && in_subtree(i as int, k) && #[trigger] s0[j] == s0[k] by {
                    assert(s0[j] == s0[j]);
                }
            }
        }
    }

    /// Remove every move.
    pub fn clear(&mut self)
        ensures
            final(self).wf(),
            final(self)@ =~= Multiset::empty(),
            final(self).len_spec() == 0,
    {
        self.store.clear();
        self.size = 0;
    }

    /// Add a move.
    pub fn push(&mut self, v: EvaluatedMotion)
        requires
            old(self).wf(),
            old(self).len_spec() + 1 < usize::MAX / 4,
        ensures
            final(self).wf(),
            final(self)@ == old(self)@.insert(v),
            final(self).len_spec() == old(self).len_spec() + 1,
            final(self).items().len() == final(self).len_spec(),
            heap_ordered(final(self).items()),
            final(self).items()[0].evaluation == (if old(self).len_spec() > 0
                && old(self).items()[0].evaluation > v.evaluation {
                old(self).items()[0].evaluation
            } else {
                v.evaluation
            }),
    {
        self.size = self.size + 1;
        let ghost s0 = self.store@;
        self.store.push(v);
        proof {
            let s = self.store@;
            assert(s == s0.push(v));
            assert forall|j: int|
                0 < j < s.len() && j != s0.len() implies #[trigger] s[parent_of(j)].evaluation
                >= s[j].evaluation by {
                assert(s0[parent_of(j)].evaluation >= s0[j].evaluation);
            }
        }
        self.bubble(self.size - 1);
        proof {
            let s = self.store@;
            lemma_root_is_max(s, 0);
            assert(s.to_multiset().contains(v));
            let kv = choose|k: int| 0 <= k < s.len() && s[k] == v;
            lemma_root_is_max(s, kv);
            if s0.len() > 0 {
                assert(s0.to_multiset().contains(s0[0]));
                assert(s.to_multiset().contains(s0[0]));
                let k0 = choose|k: int| 0 <= k < s.len() && s[k] == s0[0];
                lemma_root_is_max(s, k0);
            }
            assert(s.to_multiset().contains(s[0]));
            if s[0] != v {
                assert(s0.to_multiset().contains(s[0]));
                let k1 = choose|k: int| 0 <= k < s0.len() && s0[k] == s[0];
                lemma_root_is_max(s0, k1);
            }
        }
    }

    /// The move with the highest evaluation, which stays in the heap.
    pub fn peek(&self) -> (r: EvaluatedMotion)
        requires
            self.wf(),
            self.len_spec() > 0,
        ensures
            r == self.items()[0],
            self@.contains(r),
            forall|m: EvaluatedMotion| self@.contains(m) ==> r.evaluation >= m.evaluation,
    {
        let r = self.store[0];
        proof {
            assert forall|m: EvaluatedMotion| self@.contains(m) implies r.evaluation
                >= m.evaluation by {
                let k = choose|k: int| 0 <= k < self.store@.len() && self.store@[k] == m;
                lemma_root_is_max(self.store@, k);
            }
            assert(self.store@[0] == r);
        }
        r
    }

    /// Take out the move with the highest evaluation.
    pub fn pop(&mut self) -> (r: EvaluatedMotion)
        requires
            old(self).wf(),
            old(self).len_spec() > 0,
        ensures
            final(self).wf(),
            r == old(self).items()[0],
            final(self).items().len() == final(self).len_spec(),
            heap_ordered(final(self).items()),
            old(self)@.contains(r),
            final(self)@ == old(self)@.remove(r),
            final(self).len_spec() == old(self).len_spec() - 1,
            forall|m: EvaluatedMotion| old(self)@.contains(m) ==> r.evaluation >= m.evaluation,
    {
        let ghost s0 = self.store@;
        proof {
            assert forall|m: EvaluatedMotion| s0.to_multiset().contains(m) implies s0[0].evaluation
                >= m.evaluation by {
                let k = choose|k: int| 0 <= k < s0.len() && s0[k] == m;
                lemma_root_is_max(s0, k);
            }
        }
        let r = self.store.swap_remove(0);
        self.size = self.size - 1;
        proof {
            let s = self.store@;
            let last = s0.last();
            let mid = s0.update(0, last);
            vstd::seq_lib::to_multiset_update(s0, 0, last);
            vstd::seq_lib::to_multiset_remove(mid, mid.len() - 1);
            assert(mid.remove(mid.len() - 1) =~= s);
            assert(s.to_multiset() =~= s0.to_multiset().remove(r)) by {
                broadcast use vstd::multiset::group_multiset_axioms;

                assert(s0.to_multiset().count(last) >= 1);
            }
            assert forall|c: int, j: int| (c == 1 || c == 2) && 0 < j < s.len() && in_subtree(c, parent_of(j))
                implies #[trigger] s[parent_of(j)].evaluation >= s[j].evaluation && #[trigger] in_subtree(c, parent_of(j)) by {
                assert(s0[parent_of(j)].evaluation >= s0[j].evaluation);
            }
        }
        self.sift(0);
        proof {
            let s = self.store@;
            assert forall|j: int| 0 < j < s.len() implies #[trigger] s[parent_of(j)].evaluation >= s[j].evaluation by {
                lemma_subtree_root(parent_of(j));
            }
        }
        r
    }
}

} // verus!
