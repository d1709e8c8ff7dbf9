use vstd::prelude::*;
use crate::piece::Parity;

verus! {

/// The tree of the lines a search visits: each node holds the side to move, its children and
/// whether it is highlighted; the root keeps in `stack` the path of child positions from it to
/// the node being searched.
pub struct SearchTree {
    pub value: Parity,
    pub children: Vec<SearchTree>,
    pub stack: Vec<usize>,
    pub highlight: bool,
}

/// Whether a node is a new one for side `value`: no children, no path, no highlight.
pub open spec fn is_fresh(t: SearchTree, value: Parity) -> bool {
    &&& t.value == value
    &&& t.children@.len() == 0
    &&& t.stack@.len() == 0
    &&& !t.highlight
}

/// Whether `path` leads from `t` down through its children.
pub open spec fn valid_path(t: SearchTree, path: Seq<usize>) -> bool
    decreases path.len(),
{
    path.len() == 0 || (path[0] < t.children@.len() && valid_path(
        t.children@[path[0] as int],
        path.drop_first(),
    ))
}

/// The node reached from `t` along `path`.
pub open spec fn node_at(t: SearchTree, path: Seq<usize>) -> SearchTree
    decreases path.len(),
{
    if path.len() == 0 || path[0] >= t.children@.len() {
        t
    } else {
        node_at(t.children@[path[0] as int], path.drop_first())
    }
}

/// Whether `new` is `old` with the node along `path` changed as `change` allows, every other
/// node kept.
pub open spec fn changed_at(
    old: SearchTree,
    new: SearchTree,
    path: Seq<usize>,
    change: spec_fn(SearchTree, SearchTree) -> bool,
) -> bool
    decreases path.len(),
{
    if path.len() == 0 {
        change(old, new)
    } else {
        &&& path[0] < old.children@.len()
        &&& new.value == old.value
        &&& new.highlight == old.highlight
        &&& new.stack@ == old.stack@
        &&& new.children@.len() == old.children@.len()
        &&& forall|j: int| 0 <= j < old.children@.len() && j != path[0] ==> new.children@[j] == old.children@[j]
        &&& changed_at(old.children@[path[0] as int], new.children@[path[0] as int], path.drop_first(), change)
    }
}

/// A new child for side `value` after the existing ones.
pub open spec fn grows_leaf(value: Parity) -> spec_fn(SearchTree, SearchTree) -> bool {
    |o: SearchTree, n: SearchTree|
        {
            &&& n.value == o.value
            &&& n.highlight == o.highlight
            &&& n.stack@ == o.stack@
            &&& n.children@.len() == o.children@.len() + 1
            &&& forall|j: int| 0 <= j < o.children@.len() ==> n.children@[j] == o.children@[j]
            &&& is_fresh(n.children@[o.children@.len() as int], value)
        }
}

/// The child at position `k` taken out, the later ones moving up.
pub open spec fn loses_child(k: int) -> spec_fn(SearchTree, SearchTree) -> bool {
    |o: SearchTree, n: SearchTree|
        {
            &&& n.value == o.value
            &&& n.highlight == o.highlight
            &&& n.stack@ == o.stack@
            &&& n.children@ == o.children@.remove(k)
        }
}

/// The node highlighted.
pub open spec fn lights_up() -> spec_fn(SearchTree, SearchTree) -> bool {
    |o: SearchTree, n: SearchTree|
        {
            &&& n.value == o.value
            &&& n.highlight
            &&& n.stack@ == o.stack@
            &&& n.children@ == o.children@
        }
}

/// The last child highlighted.
pub open spec fn lights_up_last() -> spec_fn(SearchTree, SearchTree) -> bool {
    |o: SearchTree, n: SearchTree|
        {
            &&& o.children@.len() > 0
            &&& n.value == o.value
            &&& n.highlight == o.highlight
            &&& n.stack@ == o.stack@
            &&& n.children@.len() == o.children@.len()
            &&& forall|j: int| 0 <= j < o.children@.len() - 1 ==> n.children@[j] == o.children@[j]
            &&& lights_up()(o.children@[o.children@.len() - 1], n.children@[o.children@.len() - 1])
        }
}

/// The tree with the root's path replaced.
pub open spec fn with_stack(t: SearchTree, stack: Vec<usize>) -> SearchTree {
    SearchTree { stack, ..t }
}

/// Whether `new` is `old` after `leaf`: a new child for side `value` under the node along the
/// path, and the path extended to it (to the first child, from an empty path).
pub open spec fn grown(old: SearchTree, new: SearchTree, value: Parity) -> bool {
    &&& changed_at(old, with_stack(new, old.stack), old.stack@, grows_leaf(value))
    &&& new.stack@ == old.stack@.push(
        if old.stack@.len() == 0 {
            0usize
        } else {
            node_at(old, old.stack@).children@.len() as usize
        },
    )
}

/// Whether `new` is `old` after `back`: the last step of the path dropped and, with `kill`, the
/// child it led to (the first child, from an empty path) taken out of the node it came from.
pub open spec fn stepped_back(old: SearchTree, new: SearchTree, kill: bool) -> bool {
    &&& new.stack@ == (if old.stack@.len() == 0 {
        old.stack@
    } else {
        old.stack@.drop_last()
    })
    &&& !kill ==> with_stack(new, old.stack) == old
    &&& kill ==> changed_at(
        old,
        with_stack(new, old.stack),
        new.stack@,
        loses_child(if old.stack@.len() == 0 { 0 } else { old.stack@.last() as int }),
    )
}

/// A node with the same side, highlight, path and children as another.
pub open spec fn same_node() -> spec_fn(SearchTree, SearchTree) -> bool {
    |o: SearchTree, n: SearchTree|
        {
            &&& n.value == o.value
            &&& n.highlight == o.highlight
            &&& n.stack@ == o.stack@
            &&& n.children@ == o.children@
        }
}

/// Taking out the child that `grows_leaf` added, along the same path, gives the nodes back.
proof fn lemma_cut_undoes_grow(a: SearchTree, b: SearchTree, c: SearchTree, p: Seq<usize>, value: Parity)
    requires
        changed_at(a, b, p, grows_leaf(value)),
        changed_at(b, c, p, loses_child(node_at(a, p).children@.len() as int)),
    ensures
        changed_at(a, c, p, same_node()),
    decreases p.len(),
{
    if p.len() == 0 {
        assert(c.children@ =~= a.children@);
    } else {
        let i = p[0] as int;
        lemma_cut_undoes_grow(a.children@[i], b.children@[i], c.children@[i], p.drop_first(), value);
    }
}

/// Stepping back right after adding a leaf gives the path back and keeps the tree with the leaf.
pub proof fn lemma_back_returns_path(t0: SearchTree, t1: SearchTree, t2: SearchTree, value: Parity)
    requires
        grown(t0, t1, value),
        stepped_back(t1, t2, false),
    ensures
        t2.stack@ == t0.stack@,
        with_stack(t2, t1.stack) == t1,
{
    assert(t1.stack@.drop_last() =~= t0.stack@);
}

/// Adding a leaf under the node being searched and then stepping back with `kill` gives the
/// path back and the tree as it was (the nodes along the path with the same side, highlight,
/// path and children, every other node the same), when the path is not empty or the root has
/// no children yet.
pub proof fn lemma_back_undoes_leaf(t0: SearchTree, t1: SearchTree, t2: SearchTree, value: Parity)
    requires
        grown(t0, t1, value),
        stepped_back(t1, t2, true),
        t0.stack@.len() > 0 || t0.children@.len() == 0,
    ensures
        t2.stack@ == t0.stack@,
        changed_at(t0, with_stack(t2, t0.stack), t0.stack@, same_node()),
{
    let p = t0.stack@;
    assert(t1.stack@.drop_last() =~= p);
    if p.len() == 0 {
        let b = with_stack(t1, t0.stack);
        let c = with_stack(t2, t1.stack);
        assert(c.children@ =~= t0.children@);
    } else {
        let b = with_stack(t1, t0.stack);
        let c = with_stack(t2, t0.stack);
        let c1 = with_stack(t2, t1.stack);
        let n = node_at(t0, p);
        assert(n.children@.len() == n.children.len());
        assert(t1.stack@.last() as int == n.children@.len());
        assert(t2.stack@ == p);
        assert(changed_at(t1, c1, p, loses_child(node_at(t0, p).children@.len() as int)));
        assert(changed_at(b, c, p, loses_child(node_at(t0, p).children@.len() as int)));
        lemma_cut_undoes_grow(t0, b, c, p, value);
    }
}

/// Add a new child for side `value` to the node along `path` from position `k` on; gives the
/// new child's position.
fn grow_at(node: &mut SearchTree, path: &Vec<usize>, k: usize, value: Parity) -> (r: usize)
    requires
        k <= path@.len(),
        valid_path(*old(node), path@.subrange(k as int, path@.len() as int)),
        node_at(*old(node), path@.subrange(k as int, path@.len() as int)).children@.len() < usize::MAX,
    ensures
        changed_at(*old(node), *final(node), path@.subrange(k as int, path@.len() as int), grows_leaf(value)),
        r == node_at(*old(node), path@.subrange(k as int, path@.len() as int)).children@.len(),
    decreases path@.len() - k,
{
    let ghost rest = path@.subrange(k as int, path@.len() as int);
    if k == path.len() {
        let r = node.children.len();
        node.children.push(SearchTree::new(value));
        proof {
            assert(rest.len() == 0);
        }
        return r;
    }
    let i = path[k];
    proof {
        assert(rest[0] == i);
        assert(rest.drop_first() =~= path@.subrange(k + 1, path@.len() as int));
    }
    let r = grow_at(&mut node.children[i], path, k + 1, value);
    r
}

/// Highlight the node along `path` from position `k` on.
fn light_at(node: &mut SearchTree, path: &Vec<usize>, k: usize)
    requires
        k <= path@.len(),
        valid_path(*old(node), path@.subrange(k as int, path@.len() as int)),
    ensures
        changed_at(*old(node), *final(node), path@.subrange(k as int, path@.len() as int), lights_up()),
    decreases path@.len() - k,
{
    let ghost rest = path@.subrange(k as int, path@.len() as int);
    if k == path.len() {
        node.highlight = true;
        proof {
            assert(rest.len() == 0);
        }
        return;
    }
    let i = path[k];
    proof {
        assert(rest[0] == i);
        assert(rest.drop_first() =~= path@.subrange(k + 1, path@.len() as int));
    }
    light_at(&mut node.children[i], path, k + 1);
}

/// Take out child `index` of the node along `path` from position `k` on.
fn cut_at(node: &mut SearchTree, path: &Vec<usize>, k: usize, index: usize)
    requires
        k <= path@.len(),
        valid_path(*old(node), path@.subrange(k as int, path@.len() as int)),
        index < node_at(*old(node), path@.subrange(k as int, path@.len() as int)).children@.len(),
    ensures
        changed_at(
            *old(node),
            *final(node),
            path@.subrange(k as int, path@.len() as int),
            loses_child(index as int),
        ),
    decreases path@.len() - k,
{
    let ghost rest = path@.subrange(k as int, path@.len() as int);
    if k == path.len() {
        node.children.remove(index);
        proof {
            assert(rest.len() == 0);
        }
        return;
    }
    let i = path[k];
    proof {
        assert(rest[0] == i);
        assert(rest.drop_first() =~= path@.subrange(k + 1, path@.len() as int));
    }
    cut_at(&mut node.children[i], path, k + 1, index);
}

impl SearchTree {
    /// A new node for side `value`.
    pub fn new(value: Parity) -> (r: SearchTree)
        ensures
            is_fresh(r, value),
    {
        SearchTree { value, children: Vec::new(), stack: Vec::new(), highlight: false }
    }

    /// Highlight the node being searched; with an empty path, the last child of the root.
    pub fn highlight_last(from: &mut SearchTree)
        requires
            old(from).stack@.len() == 0 ==> old(from).children@.len() > 0,
            valid_path(*old(from), old(from).stack@),
        ensures
            final(from).stack@ == old(from).stack@,
            old(from).stack@.len() == 0 ==> lights_up_last()(*old(from), *final(from)),
            old(from).stack@.len() > 0 ==> changed_at(*old(from), *final(from), old(from).stack@, lights_up()),
    {
        if from.stack.len() == 0 {
            let last = from.children.len() - 1;
            from.children[last].highlight = true;
        } else {
            let stack = from.stack.clone();
            proof {
                assert(stack@.subrange(0, stack@.len() as int) =~= stack@);
            }
            light_at(from, &stack, 0);
        }
    }

    /// Add a node for side `value` under the node being searched, and search it next; with an
    /// empty path the node goes under the root and the path becomes the first child.
    pub fn leaf(from: &mut SearchTree, value: Parity)
        requires
            valid_path(*old(from), old(from).stack@),
            node_at(*old(from), old(from).stack@).children@.len() < usize::MAX,
        ensures
            grown(*old(from), *final(from), value),
    {
        let stack = from.stack.clone();
        proof {
            assert(stack@.subrange(0, stack@.len() as int) =~= stack@);
        }
        let r = grow_at(from, &stack, 0, value);
        if stack.len() == 0 {
            from.stack.push(0);
        } else {
            from.stack.push(r);
        }
    }

    /// Step back up from the node being searched; with `kill`, the node stepped back from (or
    /// the first child, with an empty path) is taken out of its parent.
    pub fn back(from: &mut SearchTree, kill: bool)
        requires
            kill ==> valid_path(*old(from), old(from).stack@.drop_last()) || old(from).stack@.len() == 0,
            kill && old(from).stack@.len() == 0 ==> old(from).children@.len() > 0,
            kill && old(from).stack@.len() > 0 ==> old(from).stack@.last() < node_at(
                *old(from),
                old(from).stack@.drop_last(),
            ).children@.len(),
        ensures
            stepped_back(*old(from), *final(from), kill),
    {
        let last = from.stack.pop();
        if kill {
            let stack = from.stack.clone();
            proof {
                assert(stack@.subrange(0, stack@.len() as int) =~= stack@);
            }
            let index = match last {
                Some(v) => v,
                None => 0,
            };
            cut_at(from, &stack, 0, index);
        }
    }
}

impl Default for SearchTree {
    fn default() -> (r: SearchTree)
        ensures
            is_fresh(r, Parity::NONE),
    {
        SearchTree::new(Parity::NONE)
    }
}

} // verus!
