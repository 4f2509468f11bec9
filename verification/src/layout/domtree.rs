//! A DOM tree with an index from node identifiers to their paths, for the
//! operations that need the parent of a node.
use vstd::prelude::*;
use std::collections::HashMap;
use crate::layout::dom::{DOMNode, with_parent};

verus! {

broadcast use vstd::std_specs::hash::group_hash_axioms;

/// The position of a node: child indices from the root down.
#[derive(Debug, Clone, PartialEq)]
pub struct DOMPath {
    /// Child index at each level, starting below the root.
    pub indices: Vec<usize>,
}

/// A copy of a vector of indices.
pub(crate) fn copy_indices(v: &Vec<usize>) -> (r: Vec<usize>)
    ensures
        r@ == v@,
{
    let mut r: Vec<usize> = Vec::new();
    let mut i: usize = 0;
    while i < v.len()
        invariant
            i <= v@.len(),
            r@ == v@.take(i as int),
        decreases v@.len() - i,
    {
        r.push(v[i]);
        i = i + 1;
        assert(r@ =~= v@.take(i as int));
    }
    assert(v@.take(v@.len() as int) =~= v@);
    r
}

impl DOMPath {
    /// The path of the root.
    pub fn root() -> (p: Self)
        ensures
            p.indices@ == Seq::<usize>::empty(),
    {
        DOMPath { indices: Vec::new() }
    }

    /// The path of the child at `index` of the node at this path.
    pub fn child(&self, index: usize) -> (p: Self)
        ensures
            p.indices@ == self.indices@.push(index),
    {
        let mut indices = copy_indices(&self.indices);
        indices.push(index);
        DOMPath { indices }
    }
}

/// The node reached from `n` by following `p` from position `d` on.
pub open spec fn node_at(n: DOMNode, p: Seq<usize>, d: int) -> Option<DOMNode>
    decreases p.len() - d,
{
    if d >= p.len() {
        Some(n)
    } else if p[d] < n.children@.len() {
        node_at(n.children@[p[d] as int], p, d + 1)
    } else {
        None
    }
}

/// `n` is `o` with the node at `p` (from position `d` on) replaced by `sub`.
pub open spec fn replaced_at(o: DOMNode, n: DOMNode, p: Seq<usize>, d: int, sub: DOMNode) -> bool
    decreases p.len() - d,
{
    if d >= p.len() {
        n == sub
    } else {
        let i = p[d] as int;
        &&& i < o.children@.len()
        &&& n.id == o.id
        &&& n.node_type == o.node_type
        &&& n.attributes == o.attributes
        &&& n.parent_id == o.parent_id
        &&& n.children@.len() == o.children@.len()
        &&& forall|j: int| 0 <= j < o.children@.len() && j != i ==> n.children@[j] == o.children@[j]
        &&& replaced_at(o.children@[i], n.children@[i], p, d + 1, sub)
    }
}

/// `q` is `p` with the same identity, type, attributes and parent.
pub open spec fn same_node_fields(p: DOMNode, q: DOMNode) -> bool {
    &&& q.id == p.id
    &&& q.node_type == p.node_type
    &&& q.attributes == p.attributes
    &&& q.parent_id == p.parent_id
}

/// Paths of the nodes in the subtree of `n` (placed at `p`), in document
/// order, a later node overriding an earlier one with the same identifier.
pub open spec fn paths(n: DOMNode, p: Seq<usize>) -> Map<u64, Seq<usize>>
    decreases n, 1int,
{
    kid_paths(n, p, n.children@.len() as int)
}

/// The paths of `n` and of the subtrees of its first `k` children.
pub open spec fn kid_paths(n: DOMNode, p: Seq<usize>, k: int) -> Map<u64, Seq<usize>>
    decreases n, 0int, k,
{
    if k <= 0 || k > n.children@.len() {
        map![n.id => p]
    } else {
        kid_paths(n, p, k - 1).union_prefer_right(paths(n.children@[k - 1], p.push((k - 1) as usize)))
    }
}

/// The index seen as identifiers mapped to index sequences.
pub open spec fn index_view(m: Map<u64, DOMPath>) -> Map<u64, Seq<usize>> {
    Map::new(|k: u64| m.dom().contains(k), |k: u64| m[k].indices@)
}

/// Whether `a` is a strict prefix of `b`.
pub open spec fn strict_prefix(a: Seq<usize>, b: Seq<usize>) -> bool {
    a.len() < b.len() && b.take(a.len() as int) == a
}

/// First position below `min(len)` from `i` on where the paths differ.
pub open spec fn first_diff(a: Seq<usize>, b: Seq<usize>, i: int) -> int
    decreases a.len() - i,
{
    if i >= a.len() || i >= b.len() {
        i
    } else if a[i] != b[i] {
        i
    } else {
        first_diff(a, b, i + 1)
    }
}

/// Relative position of two distinct paths: 4 when `a` contains `b`, 8 when
/// `b` contains `a`, else 1 when `a` comes first in document order, 2 after.
pub open spec fn position_of(a: Seq<usize>, b: Seq<usize>) -> u32 {
    if strict_prefix(a, b) {
        4
    } else if strict_prefix(b, a) {
        8
    } else {
        let i = first_diff(a, b, 0);
        if i < a.len() && i < b.len() {
            if a[i] < b[i] { 1 } else { 2 }
        } else if a.len() < b.len() {
            1
        } else {
            2
        }
    }
}

/// Identifiers of the nodes found at the first `k` proper prefixes of `p`.
pub open spec fn ancestors_of(root: DOMNode, p: Seq<usize>, k: int) -> Seq<u64>
    decreases k,
{
    if k <= 0 {
        Seq::empty()
    } else {
        ancestors_of(root, p, k - 1) + match node_at(root, p.take(k - 1), 0) {
            Some(a) => seq![a.id],
            None => Seq::empty(),
        }
    }
}

/// A DOM tree with its index of node paths.
#[derive(Debug)]
pub struct DOMTree {
    /// The root node.
    pub root: DOMNode,
    /// Path of each node by identifier.
    pub node_index: HashMap<u64, DOMPath>,
}

/// Moving `d` past a prefix of the path.
pub proof fn lemma_node_at_shift(n: DOMNode, a: Seq<usize>, b: Seq<usize>, d: int)
    requires
        0 <= d <= b.len(),
    ensures
        node_at(n, a + b, a.len() + d) == node_at(n, b, d),
    decreases b.len() - d,
{
    if d < b.len() {
        assert((a + b)[a.len() + d] == b[d]);
        if b[d] < n.children@.len() {
            lemma_node_at_shift(n.children@[b[d] as int], a, b, d + 1);
        }
    }
}

/// Every path in the index of a subtree leads to a node with that identifier.
pub proof fn lemma_paths_sound(n: DOMNode, p: Seq<usize>, id: u64)
    requires
        paths(n, p).dom().contains(id),
    ensures
        paths(n, p)[id].len() >= p.len(),
        paths(n, p)[id].take(p.len() as int) == p,
        node_at(n, paths(n, p)[id].skip(p.len() as int), 0) matches Some(x) && x.id == id,
    decreases n, 1int,
{
    lemma_kid_paths_sound(n, p, n.children@.len() as int, id);
}

/// What [`lemma_paths_sound`] states, for the first `k` children.
pub proof fn lemma_kid_paths_sound(n: DOMNode, p: Seq<usize>, k: int, id: u64)
    requires
        kid_paths(n, p, k).dom().contains(id),
    ensures
        kid_paths(n, p, k)[id].len() >= p.len(),
        kid_paths(n, p, k)[id].take(p.len() as int) == p,
        node_at(n, kid_paths(n, p, k)[id].skip(p.len() as int), 0) matches Some(x) && x.id == id,
    decreases n, 0int, k,
{
    if k <= 0 || k > n.children@.len() {
        assert(p.take(p.len() as int) =~= p);
        assert(p.skip(p.len() as int) =~= Seq::<usize>::empty());
    } else {
        let c = n.children@[k - 1];
        let cp = p.push((k - 1) as usize);
        if paths(c, cp).dom().contains(id) {
            lemma_paths_sound(c, cp, id);
            let full = paths(c, cp)[id];
            let rest = full.skip(cp.len() as int);
            assert(full.take(p.len() as int) =~= p) by {
                assert(full.take(cp.len() as int) == cp);
                assert forall|j: int| 0 <= j < p.len() implies full.take(p.len() as int)[j] == p[j] by {
                    assert(full.take(cp.len() as int)[j] == cp[j]);
                }
            }
            let q = full.skip(p.len() as int);
            assert(q =~= seq![(k - 1) as usize] + rest) by {
                assert(full.take(cp.len() as int)[p.len() as int] == cp[p.len() as int]);
            }
            lemma_node_at_shift(c, seq![(k - 1) as usize], rest, 0);
            assert(n.children@.len() <= usize::MAX) by {
                let v = n.children;
                assert(v@.len() == v.len());
            }
            assert(q[0] == (k - 1) as usize);
            assert(q[0] as int == k - 1);
            assert(node_at(n, q, 0) == node_at(c, q, 1));
        } else {
            lemma_kid_paths_sound(n, p, k - 1, id);
        }
    }
}

impl DOMTree {
    /// A tree over `root`, with its index built.
    pub fn new(root: DOMNode) -> (t: Self)
        ensures
            t.root == root,
            index_view(t.node_index@) == paths(root, Seq::empty()),
    {
        let mut tree = DOMTree { root, node_index: HashMap::new() };
        tree.build_index();
        tree
    }

    /// Rebuilds the index from the tree.
    fn build_index(&mut self)
        ensures
            final(self).root == old(self).root,
            index_view(final(self).node_index@) == paths(old(self).root, Seq::empty()),
    {
        let mut new_index: HashMap<u64, DOMPath> = HashMap::new();
        assert(index_view(new_index@) =~= Map::<u64, Seq<usize>>::empty());
        Self::build_index_recursive(&self.root, DOMPath::root(), &mut new_index);
        assert(index_view(new_index@) =~= paths(self.root, Seq::empty()));
        self.node_index = new_index;
    }

    /// Adds the paths of the subtree of `node`, placed at `path`.
    fn build_index_recursive(node: &DOMNode, path: DOMPath, index: &mut HashMap<u64, DOMPath>)
        ensures
            index_view(final(index)@) == index_view(old(index)@).union_prefer_right(paths(*node, path.indices@)),
        decreases *node, 1int,
    {
        let ghost p = path.indices@;
        let id = node.id;
        let copy = DOMPath { indices: copy_indices(&path.indices) };
        index.insert(id, copy);
        assert(index_view(index@) =~= index_view(old(index)@).union_prefer_right(kid_paths(*node, p, 0)));
        let n = node.children.len();
        let mut i: usize = 0;
        while i < n
            invariant
                i <= n,
                n == node.children@.len(),
                path.indices@ == p,
                index_view(index@) == index_view(old(index)@).union_prefer_right(kid_paths(*node, p, i as int)),
            decreases n - i,
        {
            Self::build_index_recursive(&node.children[i], path.child(i), index);
            proof {
                let c = node.children@[i as int];
                assert(kid_paths(*node, p, i + 1) == kid_paths(*node, p, i as int).union_prefer_right(
                    paths(c, p.push(i)),
                ));
                assert(index_view(index@) =~= index_view(old(index)@).union_prefer_right(
                    kid_paths(*node, p, i + 1),
                ));
            }
            i = i + 1;
        }
    }
}


/// Following a path into a replaced node reaches the replacement.
pub proof fn lemma_replaced_node_at(o: DOMNode, n: DOMNode, p: Seq<usize>, d: int, sub: DOMNode)
    requires
        replaced_at(o, n, p, d, sub),
    ensures
        node_at(n, p, d) == Some(sub),
    decreases p.len() - d,
{
    if d < p.len() {
        lemma_replaced_node_at(o.children@[p[d] as int], n.children@[p[d] as int], p, d + 1, sub);
    }
}

/// Up to the first difference, two paths agree.
pub proof fn lemma_first_diff(a: Seq<usize>, b: Seq<usize>, i: int)
    requires
        0 <= i,
    ensures
        i <= first_diff(a, b, i),
        first_diff(a, b, i) == first_diff(b, a, i),
        forall|j: int| i <= j < first_diff(a, b, i) ==> a[j] == b[j],
        first_diff(a, b, i) < a.len() && first_diff(a, b, i) < b.len() ==> a[first_diff(a, b, i)]
            != b[first_diff(a, b, i)],
        first_diff(a, b, i) >= a.len() || first_diff(a, b, i) >= b.len() ==> first_diff(a, b, i) == if i
            >= a.len() || i >= b.len() {
            i
        } else if a.len() < b.len() {
            a.len() as int
        } else {
            b.len() as int
        },
    decreases a.len() - i,
{
    if i < a.len() && i < b.len() && a[i] == b[i] {
        lemma_first_diff(a, b, i + 1);
    }
}

/// The document position of two distinct paths is one of before, after,
/// contains or contained, and reads the other way round when swapped.
pub proof fn lemma_position_antisymmetric(a: Seq<usize>, b: Seq<usize>)
    requires
        a != b,
    ensures
        position_of(a, b) == 1 || position_of(a, b) == 2 || position_of(a, b) == 4 || position_of(a, b) == 8,
        position_of(a, b) == 1 <==> position_of(b, a) == 2,
        position_of(a, b) == 4 <==> position_of(b, a) == 8,
{
    lemma_first_diff(a, b, 0);
    let i = first_diff(a, b, 0);
    if !(i < a.len() && i < b.len()) {
        if a.len() < b.len() {
            assert(b.take(a.len() as int) =~= a);
        } else if b.len() < a.len() {
            assert(a.take(b.len() as int) =~= b);
        } else {
            assert(a =~= b);
        }
    } else {
        if strict_prefix(a, b) {
            assert(b.take(a.len() as int)[i] == b[i]);
        }
        if strict_prefix(b, a) {
            assert(a.take(b.len() as int)[i] == a[i]);
        }
    }
}

/// In an index built from the tree, the path of every identifier leads to a
/// node with that identifier.
pub proof fn lemma_index_finds_node(t: DOMTree, id: u64)
    requires
        index_view(t.node_index@) == paths(t.root, Seq::empty()),
        t.node_index@.contains_key(id),
    ensures
        node_at(t.root, t.node_index@[id].indices@, 0) matches Some(x) && x.id == id,
{
    assert(index_view(t.node_index@).dom().contains(id));
    lemma_paths_sound(t.root, Seq::empty(), id);
    assert(paths(t.root, Seq::empty())[id].skip(0) =~= paths(t.root, Seq::empty())[id]);
}

/// The node at `p` (from `d` on) below `n`.
pub(crate) fn node_by_path<'a>(n: &'a DOMNode, p: &Vec<usize>, d: usize) -> (r: Option<&'a DOMNode>)
    ensures
        match r {
            Some(x) => node_at(*n, p@, d as int) == Some(*x),
            None => node_at(*n, p@, d as int) is None,
        },
    decreases p@.len() - d,
{
    if d >= p.len() {
        Some(n)
    } else {
        let i = p[d];
        if i < n.children.len() {
            node_by_path(&n.children[i], p, d + 1)
        } else {
            None
        }
    }
}

/// The node at `p` (from `d` on) below `n`, for modification.
pub(crate) fn node_by_path_mut<'a>(n: &'a mut DOMNode, p: &Vec<usize>, d: usize) -> (r: &'a mut DOMNode)
    requires
        node_at(*old(n), p@, d as int) is Some,
    ensures
        node_at(*old(n), p@, d as int) == Some(*r),
        replaced_at(*old(n), *final(n), p@, d as int, *final(r)),
    decreases p@.len() - d,
{
    if d >= p.len() {
        n
    } else {
        let i = p[d];
        node_by_path_mut(&mut n.children[i], p, d + 1)
    }
}

/// Whether `p` starts with all of `q`.
fn starts_with(p: &Vec<usize>, q: &Vec<usize>) -> (b: bool)
    ensures
        b == (q@.len() <= p@.len() && p@.take(q@.len() as int) == q@),
{
    if q.len() > p.len() {
        return false;
    }
    let mut i: usize = 0;
    while i < q.len()
        invariant
            i <= q@.len() <= p@.len(),
            forall|j: int| 0 <= j < i ==> p@[j] == q@[j],
        decreases q@.len() - i,
    {
        if p[i] != q[i] {
            assert(p@.take(q@.len() as int)[i as int] != q@[i as int]);
            return false;
        }
        i = i + 1;
    }
    assert(p@.take(q@.len() as int) =~= q@);
    true
}

/// The parent path and the last index of a non-empty path.
fn split_last(p: &Vec<usize>) -> (r: Option<(Vec<usize>, usize)>)
    ensures
        p@.len() == 0 <==> r is None,
        r matches Some((q, i)) ==> q@ == p@.drop_last() && i == p@.last(),
{
    let mut q = copy_indices(p);
    match q.pop() {
        Some(i) => Some((q, i)),
        None => None,
    }
}

/// Parent path and position among the siblings of the indexed node `id`,
/// when it is not the root.
pub open spec fn slot_of(t: DOMTree, id: u64) -> Option<(Seq<usize>, int)> {
    if t.node_index@.contains_key(id) && t.node_index@[id].indices@.len() > 0 {
        let p = t.node_index@[id].indices@;
        Some((p.drop_last(), p.last() as int))
    } else {
        None
    }
}

/// Path of the parent of the indexed node `id`.
pub open spec fn slot_path(t: DOMTree, id: u64) -> Seq<usize> {
    t.node_index@[id].indices@.drop_last()
}

/// Position of the indexed node `id` among its siblings.
pub open spec fn slot_index(t: DOMTree, id: u64) -> int {
    t.node_index@[id].indices@.last() as int
}

/// The parent found at the slot of `id`.
pub open spec fn slot_parent(t: DOMTree, id: u64) -> Option<DOMNode> {
    match slot_of(t, id) {
        Some((pp, _)) => node_at(t.root, pp, 0),
        None => None,
    }
}

impl DOMTree {
    /// The node with identifier `node_id`, found through the index.
    pub fn get_node(&self, node_id: u64) -> (r: Option<&DOMNode>)
        ensures
            match r {
                Some(x) => self.node_index@.contains_key(node_id) && node_at(
                    self.root,
                    self.node_index@[node_id].indices@,
                    0,
                ) == Some(*x),
                None => !self.node_index@.contains_key(node_id) || node_at(
                    self.root,
                    self.node_index@[node_id].indices@,
                    0,
                ) is None,
            },
    {
        match self.node_index.get(&node_id) {
            Some(path) => node_by_path(&self.root, &path.indices, 0),
            None => None,
        }
    }

    /// The node with identifier `node_id`, for modification.
    pub fn get_node_mut(&mut self, node_id: u64) -> (r: Option<&mut DOMNode>)
        ensures
            match r {
                Some(x) => {
                    let p = old(self).node_index@[node_id].indices@;
                    &&& old(self).node_index@.contains_key(node_id)
                    &&& node_at(old(self).root, p, 0) == Some(*x)
                    &&& replaced_at(old(self).root, final(self).root, p, 0, *final(x))
                    &&& final(self).node_index == old(self).node_index
                },
                None => {
                    &&& !old(self).node_index@.contains_key(node_id) || node_at(
                        old(self).root,
                        old(self).node_index@[node_id].indices@,
                        0,
                    ) is None
                    &&& *final(self) == *old(self)
                },
            },
    {
        let path = match self.node_index.get(&node_id) {
            Some(path) => copy_indices(&path.indices),
            None => return None,
        };
        if node_by_path(&self.root, &path, 0).is_none() {
            return None;
        }
        Some(node_by_path_mut(&mut self.root, &path, 0))
    }

    /// The node at `path`.
    fn get_node_by_path(&self, path: &DOMPath) -> (r: Option<&DOMNode>)
        ensures
            match r {
                Some(x) => node_at(self.root, path.indices@, 0) == Some(*x),
                None => node_at(self.root, path.indices@, 0) is None,
            },
    {
        node_by_path(&self.root, &path.indices, 0)
    }

    /// Inserts `new_node` as the next sibling of the node `reference_id`,
    /// which must not be the root; the index is rebuilt.
    pub fn insert_after(&mut self, reference_id: u64, new_node: DOMNode) -> (r: bool)
        ensures
            r == (slot_parent(*old(self), reference_id) matches Some(pn) && slot_index(*old(self), reference_id) < pn.children@.len()),
            r ==> {
                let pp = slot_path(*old(self), reference_id);
                let i = slot_index(*old(self), reference_id);
                let pn = slot_parent(*old(self), reference_id)->0;
                let q = node_at(final(self).root, pp, 0)->0;
                &&& node_at(final(self).root, pp, 0) is Some
                &&& replaced_at(old(self).root, final(self).root, pp, 0, q)
                &&& same_node_fields(pn, q)
                &&& q.children@ == pn.children@.insert(i + 1, with_parent(new_node, pn.id))
                &&& index_view(final(self).node_index@) == paths(final(self).root, Seq::empty())
            },
            !r ==> *final(self) == *old(self),
    {
        self.insert_sibling(reference_id, new_node, true)
    }

    /// Inserts `new_node` as the previous sibling of the node `reference_id`,
    /// which must not be the root; the index is rebuilt.
    pub fn insert_before_node(&mut self, reference_id: u64, new_node: DOMNode) -> (r: bool)
        ensures
            r == (slot_parent(*old(self), reference_id) matches Some(pn) && slot_index(*old(self), reference_id) <= pn.children@.len()),
            r ==> {
                let pp = slot_path(*old(self), reference_id);
                let i = slot_index(*old(self), reference_id);
                let pn = slot_parent(*old(self), reference_id)->0;
                let q = node_at(final(self).root, pp, 0)->0;
                &&& node_at(final(self).root, pp, 0) is Some
                &&& replaced_at(old(self).root, final(self).root, pp, 0, q)
                &&& same_node_fields(pn, q)
                &&& q.children@ == pn.children@.insert(i, with_parent(new_node, pn.id))
                &&& index_view(final(self).node_index@) == paths(final(self).root, Seq::empty())
            },
            !r ==> *final(self) == *old(self),
    {
        self.insert_sibling(reference_id, new_node, false)
    }

    /// Inserts `new_node` next to the node `reference_id`: after it when
    /// `after`, else before it.
    fn insert_sibling(&mut self, reference_id: u64, new_node: DOMNode, after: bool) -> (r: bool)
        ensures
            r == (slot_parent(*old(self), reference_id) matches Some(pn) && (if after {
                slot_index(*old(self), reference_id) < pn.children@.len()
            } else {
                slot_index(*old(self), reference_id) <= pn.children@.len()
            })),
            r ==> {
                let pp = slot_path(*old(self), reference_id);
                let i = slot_index(*old(self), reference_id);
                let pn = slot_parent(*old(self), reference_id)->0;
                let q = node_at(final(self).root, pp, 0)->0;
                &&& node_at(final(self).root, pp, 0) is Some
                &&& replaced_at(old(self).root, final(self).root, pp, 0, q)
                &&& same_node_fields(pn, q)
                &&& q.children@ == pn.children@.insert(
                    if after { i + 1 } else { i },
                    with_parent(new_node, pn.id),
                )
                &&& index_view(final(self).node_index@) == paths(final(self).root, Seq::empty())
            },
            !r ==> *final(self) == *old(self),
    {
        let (parent_path, index) = match self.node_index.get(&reference_id) {
            Some(path) => match split_last(&path.indices) {
                Some(pair) => pair,
                None => return false,
            },
            None => return false,
        };
        let len = match node_by_path(&self.root, &parent_path, 0) {
            Some(parent) => parent.children.len(),
            None => return false,
        };
        let fits = if after { index < len } else { index <= len };
        if !fits {
            return false;
        }
        let at = if after { index + 1 } else { index };
        let ghost old_root = self.root;
        let parent = node_by_path_mut(&mut self.root, &parent_path, 0);
        let mut new_node = new_node;
        new_node.parent_id = parent.id;
        parent.children.insert(at, new_node);
        proof {
            lemma_replaced_node_at(old_root, self.root, parent_path@, 0, *parent);
        }
        self.build_index();
        true
    }

    /// Removes the node `node_id`, which must not be the root, and returns it;
    /// the index is rebuilt.
    pub fn remove_node(&mut self, node_id: u64) -> (r: Option<DOMNode>)
        ensures
            r is Some == (slot_parent(*old(self), node_id) matches Some(pn) && slot_index(*old(self), node_id)
                < pn.children@.len()),
            r is Some ==> {
                let pp = slot_path(*old(self), node_id);
                let i = slot_index(*old(self), node_id);
                let pn = slot_parent(*old(self), node_id)->0;
                let q = node_at(final(self).root, pp, 0)->0;
                &&& r == Some(pn.children@[i])
                &&& node_at(final(self).root, pp, 0) is Some
                &&& replaced_at(old(self).root, final(self).root, pp, 0, q)
                &&& same_node_fields(pn, q)
                &&& q.children@ == pn.children@.remove(i)
                &&& index_view(final(self).node_index@) == paths(final(self).root, Seq::empty())
            },
            r is None ==> *final(self) == *old(self),
    {
        let (parent_path, index) = match self.node_index.get(&node_id) {
            Some(path) => match split_last(&path.indices) {
                Some(pair) => pair,
                None => return None,
            },
            None => return None,
        };
        let len = match node_by_path(&self.root, &parent_path, 0) {
            Some(parent) => parent.children.len(),
            None => return None,
        };
        if index >= len {
            return None;
        }
        let ghost old_root = self.root;
        let parent = node_by_path_mut(&mut self.root, &parent_path, 0);
        let removed = parent.children.remove(index);
        proof {
            lemma_replaced_node_at(old_root, self.root, parent_path@, 0, *parent);
        }
        self.build_index();
        Some(removed)
    }
}


impl DOMTree {
    /// Document position of `node1_id` relative to `node2_id`: 0 for the same
    /// node, 16 when either is not indexed, else as [`position_of`] their paths.
    pub fn compare_document_position(&self, node1_id: u64, node2_id: u64) -> (r: u32)
        ensures
            r == if node1_id == node2_id {
                0
            } else if !self.node_index@.contains_key(node1_id) || !self.node_index@.contains_key(node2_id) {
                16
            } else {
                position_of(self.node_index@[node1_id].indices@, self.node_index@[node2_id].indices@)
            },
    {
        if node1_id == node2_id {
            return 0;
        }
        let path1 = match self.node_index.get(&node1_id) {
            Some(p) => &p.indices,
            None => return 16,
        };
        let path2 = match self.node_index.get(&node2_id) {
            Some(p) => &p.indices,
            None => return 16,
        };
        let ghost a = path1@;
        let ghost b = path2@;
        if starts_with(path2, path1) && path2.len() > path1.len() {
            return 4;
        }
        if starts_with(path1, path2) && path1.len() > path2.len() {
            return 8;
        }
        proof {
            lemma_first_diff(a, b, 0);
        }
        let n = if path1.len() < path2.len() { path1.len() } else { path2.len() };
        let mut i: usize = 0;
        while i < n
            invariant
                i <= n,
                n == if a.len() < b.len() { a.len() } else { b.len() },
                a == path1@,
                b == path2@,
                first_diff(a, b, 0) == first_diff(a, b, i as int),
                !strict_prefix(a, b),
                !strict_prefix(b, a),
                node1_id != node2_id,
                self.node_index@.contains_key(node1_id),
                self.node_index@.contains_key(node2_id),
                a == self.node_index@[node1_id].indices@,
                b == self.node_index@[node2_id].indices@,
            decreases n - i,
        {
            let i1 = path1[i];
            let i2 = path2[i];
            if i1 < i2 {
                return 1;
            } else if i1 > i2 {
                return 2;
            }
            i = i + 1;
        }
        if path1.len() < path2.len() {
            1
        } else {
            2
        }
    }

    /// Depth of the indexed node `node_id` (0 for the root).
    pub fn get_depth(&self, node_id: u64) -> (r: Option<usize>)
        ensures
            r == if self.node_index@.contains_key(node_id) {
                Some(self.node_index@[node_id].indices@.len() as usize)
            } else {
                None::<usize>
            },
    {
        match self.node_index.get(&node_id) {
            Some(path) => Some(path.indices.len()),
            None => None,
        }
    }

    /// Identifiers of the nodes on the path of `node_id`, from the root down,
    /// leaving out the node itself and the levels that cannot be followed.
    pub fn get_ancestors(&self, node_id: u64) -> (r: Vec<u64>)
        ensures
            r@ == if self.node_index@.contains_key(node_id) {
                let p = self.node_index@[node_id].indices@;
                ancestors_of(self.root, p, p.len() as int)
            } else {
                Seq::empty()
            },
    {
        let mut ancestors: Vec<u64> = Vec::new();
        match self.node_index.get(&node_id) {
            Some(path) => {
                let ghost p = path.indices@;
                let mut prefix: Vec<usize> = Vec::new();
                let mut i: usize = 0;
                while i < path.indices.len()
                    invariant
                        i <= p.len(),
                        p == path.indices@,
                        prefix@ == p.take(i as int),
                        ancestors@ == ancestors_of(self.root, p, i as int),
                    decreases p.len() - i,
                {
                    let ancestor_path = DOMPath { indices: copy_indices(&prefix) };
                    match self.get_node_by_path(&ancestor_path) {
                        Some(ancestor) => {
                            ancestors.push(ancestor.id);
                        },
                        None => {},
                    }
                    prefix.push(path.indices[i]);
                    i = i + 1;
                    assert(prefix@ =~= p.take(i as int));
                    assert(ancestors@ =~= ancestors_of(self.root, p, i as int));
                }
            },
            None => {},
        }
        ancestors
    }

    /// Number of children of the parent of `node_id` (1 for the root, 0 when
    /// the node is not indexed or its parent cannot be reached).
    pub fn get_sibling_count(&self, node_id: u64) -> (r: usize)
        ensures
            r == if !self.node_index@.contains_key(node_id) {
                0
            } else if self.node_index@[node_id].indices@.len() == 0 {
                1
            } else {
                match node_at(self.root, self.node_index@[node_id].indices@.drop_last(), 0) {
                    Some(pn) => pn.children@.len() as usize,
                    None => 0,
                }
            },
    {
        match self.node_index.get(&node_id) {
            Some(path) => {
                match split_last(&path.indices) {
                    None => 1,
                    Some((parent_indices, _)) => {
                        let parent_path = DOMPath { indices: parent_indices };
                        match self.get_node_by_path(&parent_path) {
                            Some(parent) => parent.children.len(),
                            None => 0,
                        }
                    },
                }
            },
            None => 0,
        }
    }

    /// Position of the indexed node `node_id` among its siblings (0 for the root).
    pub fn get_sibling_index(&self, node_id: u64) -> (r: Option<usize>)
        ensures
            r == if !self.node_index@.contains_key(node_id) {
                None::<usize>
            } else if self.node_index@[node_id].indices@.len() == 0 {
                Some(0usize)
            } else {
                Some(self.node_index@[node_id].indices@.last())
            },
    {
        match self.node_index.get(&node_id) {
            Some(path) => {
                let n = path.indices.len();
                if n == 0 {
                    Some(0)
                } else {
                    Some(path.indices[n - 1])
                }
            },
            None => None,
        }
    }

    /// Rebuilds the index from the current tree.
    pub fn rebuild_index(&mut self)
        ensures
            final(self).root == old(self).root,
            index_view(final(self).node_index@) == paths(old(self).root, Seq::empty()),
    {
        self.build_index();
    }
}

} // verus!
