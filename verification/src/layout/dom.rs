//! DOM node tree: elements, text and comments with attributes and children.
use vstd::prelude::*;
use crate::strmap::StrMap;
use crate::text::{
    chars_of, has_word, lowercase, sub_chars, split_ranges, string_of, to_lowercase, trim, trimmed,
    find, find_exec, split_char, pieces, valid_ranges, string_of_all, words,
};
use crate::layout::style::ComputedStyles;

verus! {

/// Kind of a DOM node.
#[derive(Debug, Clone, PartialEq)]
pub enum NodeType {
    /// An element with its tag name.
    Element(String),
    /// A text node with its content.
    Text(String),
    /// A comment with its content.
    Comment(String),
}

/// A node of the DOM tree.
#[derive(Debug)]
pub struct DOMNode {
    /// Identifier of the node.
    pub id: u64,
    /// Kind of the node.
    pub node_type: NodeType,
    /// Attributes by name.
    pub attributes: StrMap<String>,
    /// Child nodes in order.
    pub children: Vec<DOMNode>,
    /// Identifier of the parent (0 for none).
    pub parent_id: u64,
}

/// `n` re-parented under `pid`.
pub open spec fn with_parent(n: DOMNode, pid: u64) -> DOMNode {
    DOMNode { parent_id: pid, ..n }
}

/// The children re-parented under `pid`.
pub open spec fn all_with_parent(s: Seq<DOMNode>, pid: u64) -> Seq<DOMNode> {
    s.map_values(|n: DOMNode| with_parent(n, pid))
}

/// `c` is a copy of `o` (the whole subtree when `deep`), with new identifiers.
pub open spec fn copy_of(c: DOMNode, o: DOMNode, deep: bool) -> bool {
    &&& c.node_type == o.node_type
    &&& c.attributes@ == o.attributes@
    &&& c.parent_id == 0
    &&& if deep {
        &&& c.children@.len() == o.children@.len()
        &&& kids_copied(c.children@, o, c.id, o.children@.len() as int)
    } else {
        c.children@.len() == 0
    }
}

/// `c` is a deep copy of `o` attached under `pid`.
pub open spec fn subtree_copy(c: DOMNode, o: DOMNode, pid: u64) -> bool
    decreases o, 1int,
{
    &&& c.node_type == o.node_type
    &&& c.attributes@ == o.attributes@
    &&& c.parent_id == pid
    &&& c.children@.len() == o.children@.len()
    &&& kids_copied(c.children@, o, c.id, o.children@.len() as int)
}

/// The first `k` of `kids` are deep copies of the first `k` children of `o`, under `pid`.
pub open spec fn kids_copied(kids: Seq<DOMNode>, o: DOMNode, pid: u64, k: int) -> bool
    decreases o, 0int, k,
{
    if k <= 0 {
        true
    } else if k > o.children@.len() || k > kids.len() {
        false
    } else {
        kids_copied(kids, o, pid, k - 1) && subtree_copy(kids[k - 1], o.children@[k - 1], pid)
    }
}

/// Extending the copied children keeps what held of the prefix.
pub proof fn lemma_kids_copied_prefix(a: Seq<DOMNode>, b: Seq<DOMNode>, o: DOMNode, pid: u64, k: int)
    requires
        0 <= k <= a.len(),
        k <= b.len(),
        forall|j: int| 0 <= j < k ==> a[j] == b[j],
    ensures
        kids_copied(a, o, pid, k) == kids_copied(b, o, pid, k),
    decreases k,
{
    if k > 0 {
        lemma_kids_copied_prefix(a, b, o, pid, k - 1);
    }
}

/// Some node of the subtree of `n` has identifier `id`.
pub open spec fn subtree_has(n: DOMNode, id: u64) -> bool
    decreases n, 1int,
{
    n.id == id || kids_have(n, id, n.children@.len() as int)
}

/// One of the first `k` children subtrees of `n` has identifier `id`.
pub open spec fn kids_have(n: DOMNode, id: u64, k: int) -> bool
    decreases n, 0int, k,
{
    if k <= 0 || k > n.children@.len() {
        false
    } else {
        kids_have(n, id, k - 1) || subtree_has(n.children@[k - 1], id)
    }
}

/// A child found among the first `k` is found among the first `m >= k`.
pub proof fn lemma_kids_have_mono(n: DOMNode, id: u64, k: int, m: int)
    requires
        0 <= k <= m <= n.children@.len(),
        kids_have(n, id, k),
    ensures
        kids_have(n, id, m),
    decreases m - k,
{
    if k < m {
        lemma_kids_have_mono(n, id, k, m - 1);
    }
}

/// A child subtree among the first `k` holds `id`.
pub proof fn lemma_kids_have_some(n: DOMNode, id: u64, k: int)
    requires
        kids_have(n, id, k),
    ensures
        exists|j: int| 0 <= j < k && j < n.children@.len() && subtree_has(#[trigger] n.children@[j], id),
    decreases k,
{
    if !subtree_has(n.children@[k - 1], id) {
        lemma_kids_have_some(n, id, k - 1);
    }
}

/// The subtree of `root` holds every identifier but 0.
pub open spec fn holds_every_id(root: DOMNode) -> bool {
    forall|j: u64| j != 0 ==> #[trigger] subtree_has(root, j)
}

/// `id` occurs nowhere in the subtree of `root`, unless that subtree holds
/// every identifier.
pub open spec fn fresh_for(id: u64, root: DOMNode) -> bool {
    !subtree_has(root, id) || holds_every_id(root)
}

/// Every identifier in the subtree of `c` is fresh for `root`.
pub open spec fn ids_fresh_for(c: DOMNode, root: DOMNode) -> bool {
    forall|id: u64| #[trigger] subtree_has(c, id) ==> fresh_for(id, root)
}

/// A node whose own identifier and children's identifiers are fresh for
/// `root` has only fresh identifiers.
proof fn lemma_copy_ids_fresh(c: DOMNode, root: DOMNode)
    requires
        fresh_for(c.id, root),
        forall|j: int| 0 <= j < c.children@.len() ==> ids_fresh_for(#[trigger] c.children@[j], root),
    ensures
        ids_fresh_for(c, root),
{
    assert forall|id: u64| #[trigger] subtree_has(c, id) implies fresh_for(id, root) by {
        if id != c.id {
            lemma_kids_have_some(c, id, c.children@.len() as int);
            let j = choose|j: int| 0 <= j < c.children@.len() && j < c.children@.len() && subtree_has(#[trigger] c.children@[j], id);
            assert(ids_fresh_for(c.children@[j], root));
        }
    }
}

/// Concatenated text of the subtree of `n` (comments contribute nothing).
pub open spec fn text_of(n: DOMNode) -> Seq<char>
    decreases n, n.children@.len() + 1,
{
    match n.node_type {
        NodeType::Text(t) => t@,
        NodeType::Element(_) => children_text(n, n.children@.len() as int),
        NodeType::Comment(_) => Seq::empty(),
    }
}

/// Concatenated text of the first `k` children of `n`.
pub open spec fn children_text(n: DOMNode, k: int) -> Seq<char>
    decreases n, k,
{
    if k <= 0 || k > n.children@.len() {
        Seq::empty()
    } else {
        children_text(n, k - 1) + text_of(n.children@[k - 1])
    }
}

/// Style map of one `property: value` declaration added to `m`.
pub open spec fn style_decl(m: Map<Seq<char>, Seq<char>>, piece: Seq<char>) -> Map<Seq<char>, Seq<char>> {
    let d = trim(piece);
    match find(d, seq![':']) {
        None => m,
        Some(c) => {
            let p = lowercase(trim(d.subrange(0, c)));
            let v = trim(d.subrange(c + 1, d.len() as int));
            if p.len() > 0 && v.len() > 0 {
                m.insert(p, v)
            } else {
                m
            }
        },
    }
}

/// Style map of a sequence of declarations, applied in order.
pub open spec fn style_decls(ps: Seq<Seq<char>>) -> Map<Seq<char>, Seq<char>>
    decreases ps.len(),
{
    if ps.len() == 0 {
        Map::empty()
    } else {
        style_decl(style_decls(ps.drop_last()), ps.last())
    }
}

/// Style map of a `style` attribute value.
pub open spec fn parse_style(s: Seq<char>) -> Map<Seq<char>, Seq<char>> {
    style_decls(split_char(s, ';'))
}

/// Calls `RandomState::new` and hashes a constant with the new state. Each
/// state carries fresh keys, so successive results differ with overwhelming
/// probability; nothing is promised of the value.
#[verifier::external_body]
fn fresh_token() -> (r: u64) {
    std::hash::BuildHasher::hash_one(&std::collections::hash_map::RandomState::new(), 0u8)
}

/// An equal copy of a node kind.
pub fn copy_node_type(t: &NodeType) -> (r: NodeType)
    ensures
        r == *t,
{
    match t {
        NodeType::Element(s) => NodeType::Element(s.clone()),
        NodeType::Text(s) => NodeType::Text(s.clone()),
        NodeType::Comment(s) => NodeType::Comment(s.clone()),
    }
}

impl DOMNode {
    /// A new identifier that occurs nowhere in the subtree of `root`: a
    /// fresh token, or where that is taken, the least free identifier.
    fn fresh_id_for(root: &DOMNode) -> (r: u64)
        ensures
            r != 0,
            fresh_for(r, *root),
    {
        let t = Self::generate_id();
        if !root.contains(t) {
            return t;
        }
        let mut c: u64 = 1;
        while c < u64::MAX && root.contains(c)
            invariant
                1 <= c,
                forall|j: u64| 1 <= j < c ==> #[trigger] subtree_has(*root, j),
            decreases u64::MAX - c,
        {
            c = c + 1;
        }
        proof {
            if subtree_has(*root, c) {
                assert forall|j: u64| j != 0 implies #[trigger] subtree_has(*root, j) by {
                    if j < c {
                    } else {
                        assert(j == c);
                    }
                }
            }
        }
        c
    }

    /// A new node identifier, never 0.
    fn generate_id() -> (r: u64)
        ensures
            r != 0,
    {
        let t = fresh_token();
        if t == 0 {
            1
        } else {
            t
        }
    }

    /// A new element; the tag is lower-cased.
    pub fn new_element(tag: &str) -> (n: Self)
        ensures
            n.node_type matches NodeType::Element(t) && t@ == lowercase(tag@),
            n.attributes@ == Map::<Seq<char>, String>::empty(),
            n.children@.len() == 0,
            n.parent_id == 0,
            n.id != 0,
    {
        DOMNode {
            id: Self::generate_id(),
            node_type: NodeType::Element(to_lowercase(tag)),
            attributes: StrMap::new(),
            children: Vec::new(),
            parent_id: 0,
        }
    }

    /// A new text node.
    pub fn new_text(text: &str) -> (n: Self)
        ensures
            n.node_type matches NodeType::Text(t) && t@ == text@,
            n.attributes@ == Map::<Seq<char>, String>::empty(),
            n.children@.len() == 0,
            n.parent_id == 0,
            n.id != 0,
    {
        DOMNode {
            id: Self::generate_id(),
            node_type: NodeType::Text(text.to_owned()),
            attributes: StrMap::new(),
            children: Vec::new(),
            parent_id: 0,
        }
    }

    /// A new comment node.
    pub fn new_comment(comment: &str) -> (n: Self)
        ensures
            n.node_type matches NodeType::Comment(t) && t@ == comment@,
            n.attributes@ == Map::<Seq<char>, String>::empty(),
            n.children@.len() == 0,
            n.parent_id == 0,
            n.id != 0,
    {
        DOMNode {
            id: Self::generate_id(),
            node_type: NodeType::Comment(comment.to_owned()),
            attributes: StrMap::new(),
            children: Vec::new(),
            parent_id: 0,
        }
    }

    /// Sets an attribute.
    pub fn set_attribute(&mut self, key: &str, value: &str)
        ensures
            final(self).attributes.sview() == old(self).attributes.sview().insert(key@, value@),
            final(self).id == old(self).id,
            final(self).node_type == old(self).node_type,
            final(self).children == old(self).children,
            final(self).parent_id == old(self).parent_id,
    {
        self.attributes.set_str(key, value);
    }

    /// Value of an attribute.
    pub fn get_attribute(&self, key: &str) -> (r: Option<&String>)
        ensures
            match r {
                Some(v) => self.attributes.sview().dom().contains(key@) && v@ == self.attributes.sview()[key@],
                None => !self.attributes.sview().dom().contains(key@),
            },
    {
        self.attributes.get_str(key)
    }

    /// The `class` attribute.
    pub fn class(&self) -> (r: Option<&String>)
        ensures
            match r {
                Some(v) => self.attributes.sview().dom().contains(seq!['c', 'l', 'a', 's', 's'])
                    && v@ == self.attributes.sview()[seq!['c', 'l', 'a', 's', 's']],
                None => !self.attributes.sview().dom().contains(seq!['c', 'l', 'a', 's', 's']),
            },
    {
        let k = "class";
        proof {
            reveal_strlit("class");
        }
        assert(k@ =~= seq!['c', 'l', 'a', 's', 's']);
        self.get_attribute(k)
    }

    /// The `id` attribute.
    pub fn id_attr(&self) -> (r: Option<&String>)
        ensures
            match r {
                Some(v) => self.attributes.sview().dom().contains(seq!['i', 'd'])
                    && v@ == self.attributes.sview()[seq!['i', 'd']],
                None => !self.attributes.sview().dom().contains(seq!['i', 'd']),
            },
    {
        let k = "id";
        proof {
            reveal_strlit("id");
        }
        assert(k@ =~= seq!['i', 'd']);
        self.get_attribute(k)
    }

    /// Appends a child, which takes this node as parent.
    pub fn append_child(&mut self, child: DOMNode)
        ensures
            final(self).children@ == old(self).children@.push(with_parent(child, old(self).id)),
            final(self).id == old(self).id,
            final(self).node_type == old(self).node_type,
            final(self).attributes == old(self).attributes,
            final(self).parent_id == old(self).parent_id,
    {
        let mut child = child;
        child.parent_id = self.id;
        self.children.push(child);
    }

    /// Removes the child at `index`; the removed node loses its parent.
    pub fn remove_child(&mut self, index: usize) -> (r: Option<DOMNode>)
        ensures
            index < old(self).children@.len() ==> r == Some(with_parent(old(self).children@[index as int], 0))
                && final(self).children@ == old(self).children@.remove(index as int),
            index >= old(self).children@.len() ==> r is None && final(self).children@ == old(self).children@,
            final(self).id == old(self).id,
            final(self).node_type == old(self).node_type,
            final(self).attributes == old(self).attributes,
            final(self).parent_id == old(self).parent_id,
    {
        if index < self.children.len() {
            let mut child = self.children.remove(index);
            child.parent_id = 0;
            Some(child)
        } else {
            None
        }
    }

    /// Inserts `new_node` before the child at `reference_index` (at the end
    /// when the index equals the number of children).
    pub fn insert_before(&mut self, new_node: DOMNode, reference_index: usize) -> (r: bool)
        ensures
            r == (reference_index <= old(self).children@.len()),
            r ==> final(self).children@ == old(self).children@.insert(
                reference_index as int,
                with_parent(new_node, old(self).id),
            ),
            !r ==> final(self).children@ == old(self).children@,
            final(self).id == old(self).id,
            final(self).node_type == old(self).node_type,
            final(self).attributes == old(self).attributes,
            final(self).parent_id == old(self).parent_id,
    {
        if reference_index <= self.children.len() {
            let mut new_node = new_node;
            new_node.parent_id = self.id;
            self.children.insert(reference_index, new_node);
            true
        } else {
            false
        }
    }

    /// Replaces the child at `index` and returns the old one.
    pub fn replace_child(&mut self, new_node: DOMNode, index: usize) -> (r: Option<DOMNode>)
        ensures
            index < old(self).children@.len() ==> r == Some(old(self).children@[index as int])
                && final(self).children@ == old(self).children@.update(
                index as int,
                with_parent(new_node, old(self).id),
            ),
            index >= old(self).children@.len() ==> r is None && final(self).children@ == old(self).children@,
            final(self).id == old(self).id,
            final(self).node_type == old(self).node_type,
            final(self).attributes == old(self).attributes,
            final(self).parent_id == old(self).parent_id,
    {
        if index < self.children.len() {
            let old_node = self.children.remove(index);
            let mut new_node = new_node;
            new_node.parent_id = self.id;
            self.children.insert(index, new_node);
            Some(old_node)
        } else {
            None
        }
    }

    /// Deep copies of the children, attached under `pid`.
    fn clone_children(&self, pid: u64, root: &DOMNode) -> (kids: Vec<DOMNode>)
        ensures
            kids@.len() == self.children@.len(),
            kids_copied(kids@, *self, pid, self.children@.len() as int),
            forall|j: int| 0 <= j < kids@.len() ==> ids_fresh_for(#[trigger] kids@[j], *root),
        decreases self, 0int,
    {
        let mut kids: Vec<DOMNode> = Vec::new();
        let mut i: usize = 0;
        while i < self.children.len()
            invariant
                i <= self.children@.len(),
                kids@.len() == i,
                kids_copied(kids@, *self, pid, i as int),
                forall|j: int| 0 <= j < i ==> ids_fresh_for(#[trigger] kids@[j], *root),
            decreases self.children.len() - i,
        {
            let cc = self.children[i].clone_subtree(pid, root);
            let ghost before = kids@;
            kids.push(cc);
            proof {
                lemma_kids_copied_prefix(before, kids@, *self, pid, i as int);
            }
            i = i + 1;
        }
        kids
    }

    /// A deep copy attached under `pid`.
    fn clone_subtree(&self, pid: u64, root: &DOMNode) -> (c: Self)
        ensures
            subtree_copy(c, *self, pid),
            c.id != 0,
            ids_fresh_for(c, *root),
        decreases self, 1int,
    {
        let id = Self::fresh_id_for(root);
        let kids = self.clone_children(id, root);
        let c = DOMNode {
            id: id,
            node_type: copy_node_type(&self.node_type),
            attributes: self.attributes.copy(),
            children: kids,
            parent_id: pid,
        };
        proof {
            lemma_copy_ids_fresh(c, *root);
        }
        c
    }

    /// A copy of this node with a new identifier and no parent; with `deep`
    /// the whole subtree is copied, otherwise no children.
    pub fn clone_node(&self, deep: bool) -> (c: Self)
        ensures
            copy_of(c, *self, deep),
            c.id != 0,
            ids_fresh_for(c, *self),
    {
        let id = Self::fresh_id_for(self);
        let kids = if deep {
            self.clone_children(id, self)
        } else {
            Vec::new()
        };
        let c = DOMNode {
            id: id,
            node_type: copy_node_type(&self.node_type),
            attributes: self.attributes.copy(),
            children: kids,
            parent_id: 0,
        };
        proof {
            lemma_copy_ids_fresh(c, *self);
        }
        c
    }

    /// Appends several children, in order.
    pub fn append(&mut self, children: Vec<DOMNode>)
        ensures
            final(self).children@ == old(self).children@ + all_with_parent(children@, old(self).id),
            final(self).id == old(self).id,
            final(self).node_type == old(self).node_type,
            final(self).attributes == old(self).attributes,
            final(self).parent_id == old(self).parent_id,
    {
        let mut children = children;
        let ghost cs = children@;
        let ghost start = self.children@;
        let n = children.len();
        let mut k: usize = 0;
        while children.len() > 0
            invariant
                k + children@.len() == n,
                n == cs.len(),
                children@ == cs.subrange(k as int, n as int),
                self.children@ == start + all_with_parent(cs.subrange(0, k as int), self.id),
                self.id == old(self).id,
                self.node_type == old(self).node_type,
                self.attributes == old(self).attributes,
                self.parent_id == old(self).parent_id,
            decreases children.len(),
        {
            let mut c = children.remove(0);
            assert(children@ =~= cs.subrange(k + 1, n as int));
            c.parent_id = self.id;
            self.children.push(c);
            k = k + 1;
            assert(all_with_parent(cs.subrange(0, k as int), self.id) =~= all_with_parent(
                cs.subrange(0, k - 1),
                self.id,
            ).push(with_parent(cs[k - 1], self.id)));
        }
        assert(cs.subrange(0, n as int) =~= cs);
    }

    /// Puts several children before the existing ones, in order.
    pub fn prepend(&mut self, children: Vec<DOMNode>)
        ensures
            final(self).children@ == all_with_parent(children@, old(self).id) + old(self).children@,
            final(self).id == old(self).id,
            final(self).node_type == old(self).node_type,
            final(self).attributes == old(self).attributes,
            final(self).parent_id == old(self).parent_id,
    {
        let mut rest: Vec<DOMNode> = Vec::new();
        std::mem::swap(&mut rest, &mut self.children);
        self.append(children);
        assert(self.children@ =~= all_with_parent(children@, old(self).id));
        let ghost head = self.children@;
        let ghost tail = rest@;
        let n = rest.len();
        let mut k: usize = 0;
        while rest.len() > 0
            invariant
                k + rest@.len() == n,
                n == tail.len(),
                rest@ == tail.subrange(k as int, n as int),
                self.children@ == head + tail.subrange(0, k as int),
                self.id == old(self).id,
                self.node_type == old(self).node_type,
                self.attributes == old(self).attributes,
                self.parent_id == old(self).parent_id,
            decreases rest.len(),
        {
            let c = rest.remove(0);
            assert(rest@ =~= tail.subrange(k + 1, n as int));
            self.children.push(c);
            k = k + 1;
            assert(tail.subrange(0, k as int) =~= tail.subrange(0, k - 1).push(tail[k - 1]));
        }
        assert(tail.subrange(0, n as int) =~= tail);
    }

    /// Not supported on a lone node: always `false`, nothing changes.
    pub fn insert_after_sibling(&mut self, sibling: DOMNode) -> (r: bool)
        ensures
            !r,
            *final(self) == *old(self),
    {
        false
    }

    /// Not supported on a lone node: always `false`, nothing changes.
    pub fn insert_before_sibling(&mut self, sibling: DOMNode) -> (r: bool)
        ensures
            !r,
            *final(self) == *old(self),
    {
        false
    }

    /// Not supported on a lone node: always `false`, nothing changes.
    pub fn remove_self(&mut self) -> (r: bool)
        ensures
            !r,
            *final(self) == *old(self),
    {
        false
    }

    /// Whether this node or one of its descendants has identifier `node_id`.
    pub fn contains(&self, node_id: u64) -> (r: bool)
        ensures
            r == subtree_has(*self, node_id),
        decreases self,
    {
        if self.id == node_id {
            return true;
        }
        let mut i: usize = 0;
        while i < self.children.len()
            invariant
                i <= self.children@.len(),
                self.id != node_id,
                !kids_have(*self, node_id, i as int),
            decreases self.children.len() - i,
        {
            if self.children[i].contains(node_id) {
                assert(kids_have(*self, node_id, i + 1));
                proof {
                    lemma_kids_have_mono(*self, node_id, i + 1, self.children@.len() as int);
                }
                return true;
            }
            i = i + 1;
        }
        false
    }

    /// Number of children.
    pub fn child_count(&self) -> (n: usize)
        ensures
            n == self.children@.len(),
    {
        self.children.len()
    }

    /// Whether there is at least one child.
    pub fn has_children(&self) -> (b: bool)
        ensures
            b == (self.children@.len() > 0),
    {
        self.children.len() > 0
    }

    /// The first child, for modification.
    pub fn first_child_mut(&mut self) -> (r: Option<&mut DOMNode>)
        ensures
            old(self).children@.len() == 0 <==> r is None,
            r matches Some(c) ==> *c == old(self).children@[0],
    {
        if self.children.len() == 0 {
            None
        } else {
            Some(&mut self.children[0])
        }
    }

    /// The last child, for modification.
    pub fn last_child_mut(&mut self) -> (r: Option<&mut DOMNode>)
        ensures
            old(self).children@.len() == 0 <==> r is None,
            r matches Some(c) ==> *c == old(self).children@.last(),
    {
        let n = self.children.len();
        if n == 0 {
            None
        } else {
            Some(&mut self.children[n - 1])
        }
    }

    /// Tag name of an element.
    pub fn tag_name(&self) -> (r: Option<&str>)
        ensures
            match self.node_type {
                NodeType::Element(t) => r matches Some(s) && s@ == t@,
                _ => r is None,
            },
    {
        match &self.node_type {
            NodeType::Element(tag) => Some(tag.as_str()),
            _ => None,
        }
    }

    /// Content of a text node.
    pub fn text_content(&self) -> (r: Option<&str>)
        ensures
            match self.node_type {
                NodeType::Text(t) => r matches Some(s) && s@ == t@,
                _ => r is None,
            },
    {
        match &self.node_type {
            NodeType::Text(text) => Some(text.as_str()),
            _ => None,
        }
    }

    /// Whether this is an element.
    pub fn is_element(&self) -> (b: bool)
        ensures
            b == (self.node_type is Element),
    {
        match &self.node_type {
            NodeType::Element(_) => true,
            _ => false,
        }
    }

    /// Whether this is a text node.
    pub fn is_text(&self) -> (b: bool)
        ensures
            b == (self.node_type is Text),
    {
        match &self.node_type {
            NodeType::Text(_) => true,
            _ => false,
        }
    }

    /// All text of the subtree, in document order.
    pub fn collect_text(&self) -> (r: String)
        ensures
            r@ == text_of(*self),
        decreases self, 0int,
    {
        match &self.node_type {
            NodeType::Text(text) => text.clone(),
            NodeType::Element(_) => {
                let mut text = String::new();
                let mut i: usize = 0;
                while i < self.children.len()
                    invariant
                        i <= self.children@.len(),
                        self.node_type is Element,
                        text@ == children_text(*self, i as int),
                    decreases self.children.len() - i,
                {
                    let t = self.children[i].collect_text();
                    text.append(t.as_str());
                    i = i + 1;
                }
                text
            },
            NodeType::Comment(_) => String::new(),
        }
    }

    /// Styles declared in the `style` attribute of an element; `None` for
    /// other nodes and for elements without that attribute.
    pub fn computed_styles(&self) -> (r: Option<ComputedStyles>)
        ensures
            !(self.node_type is Element) ==> r is None,
            self.node_type is Element ==> match self.attributes.sview().dom().contains(
                seq!['s', 't', 'y', 'l', 'e'],
            ) {
                false => r is None,
                true => r matches Some(st) && st.view() == parse_style(
                    self.attributes.sview()[seq!['s', 't', 'y', 'l', 'e']],
                ),
            },
    {
        if !self.is_element() {
            return None;
        }
        let k = "style";
        proof {
            reveal_strlit("style");
        }
        assert(k@ =~= seq!['s', 't', 'y', 'l', 'e']);
        let style_attr = match self.get_attribute(k) {
            Some(s) => s,
            None => return None,
        };
        let mut styles = ComputedStyles::new();
        self.parse_style_attribute(style_attr.as_str(), &mut styles);
        Some(styles)
    }

    /// Adds the declarations of a `style` attribute value to `styles`.
    fn parse_style_attribute(&self, style_str: &str, styles: &mut ComputedStyles)
        requires
            old(styles).view() == Map::<Seq<char>, Seq<char>>::empty(),
        ensures
            final(styles).view() == parse_style(style_str@),
    {
        let v = chars_of(style_str);
        let r = split_ranges(&v, ';');
        let ghost ps = split_char(v@, ';');
        let mut i: usize = 0;
        while i < r.len()
            invariant
                i <= r@.len(),
                valid_ranges(v@, r@),
                pieces(v@, r@) == ps,
                styles.view() == style_decls(ps.take(i as int)),
            decreases r.len() - i,
        {
            let (a, b) = r[i];
            let piece = sub_chars(&v, a, b);
            assert(piece@ == ps[i as int]);
            let d = trimmed(&piece);
            let colon: Vec<char> = vec![':'];
            assert(colon@ =~= seq![':']);
            assert(ps.take(i + 1).drop_last() =~= ps.take(i as int));
            match find_exec(&d, &colon) {
                None => {},
                Some(c) => {
                    proof {
                        crate::text::lemma_find_from(d@, seq![':'], 0);
                    }
                    assert(c < d@.len());
                    let dlen = d.len();
                    let pt = trimmed(&sub_chars(&d, 0, c));
                    let pname = string_of_all(&pt);
                    let p_lower = to_lowercase(pname.as_str());
                    let pv = trimmed(&sub_chars(&d, c + 1, dlen));
                    let pl = chars_of(p_lower.as_str());
                    if pl.len() > 0 && pv.len() > 0 {
                        let value = string_of_all(&pv);
                        styles.set(p_lower.as_str(), value.as_str());
                    }
                },
            }
            i = i + 1;
        }
        assert(ps.take(r@.len() as int) =~= ps);
    }

    /// Instruction to insert `new_node` after this node: this node's
    /// identifier with the new node, or `None` for a node without parent.
    pub fn after(&self, new_node: DOMNode) -> (r: Option<(u64, DOMNode)>)
        ensures
            self.parent_id == 0 ==> r is None,
            self.parent_id != 0 ==> r == Some((self.id, new_node)),
    {
        if self.parent_id == 0 {
            None
        } else {
            Some((self.id, new_node))
        }
    }

    /// Instruction to insert `new_node` before this node: this node's
    /// identifier with the new node, or `None` for a node without parent.
    pub fn before(&self, new_node: DOMNode) -> (r: Option<(u64, DOMNode)>)
        ensures
            self.parent_id == 0 ==> r is None,
            self.parent_id != 0 ==> r == Some((self.id, new_node)),
    {
        if self.parent_id == 0 {
            None
        } else {
            Some((self.id, new_node))
        }
    }

    /// Instruction to remove this node: its identifier, or `None` for a node
    /// without parent.
    pub fn remove(&self) -> (r: Option<u64>)
        ensures
            self.parent_id == 0 ==> r is None,
            self.parent_id != 0 ==> r == Some(self.id),
    {
        if self.parent_id == 0 {
            None
        } else {
            Some(self.id)
        }
    }
}

/// What a simple query selector matches: an `id` (`#x`), a class (`.x`) or a tag.
pub enum QueryKind {
    /// `#x`
    ById,
    /// `.x`
    ByClass,
    /// a tag name
    ByTag,
}

/// `n` matches the query.
pub open spec fn node_matches(n: DOMNode, kind: QueryKind, key: Seq<char>) -> bool {
    match kind {
        QueryKind::ById => n.attributes.sview().dom().contains(seq!['i', 'd'])
            && n.attributes.sview()[seq!['i', 'd']] == key,
        QueryKind::ByClass => n.attributes.sview().dom().contains(seq!['c', 'l', 'a', 's', 's'])
            && words(n.attributes.sview()[seq!['c', 'l', 'a', 's', 's']]).contains(key),
        QueryKind::ByTag => n.node_type matches NodeType::Element(t) && t@ == key,
    }
}

/// First node of the subtree of `n`, in document order, that matches.
pub open spec fn pre_find(n: DOMNode, kind: QueryKind, key: Seq<char>) -> Option<DOMNode>
    decreases n, 1int, 0int,
{
    if node_matches(n, kind, key) {
        Some(n)
    } else {
        kids_find(n, kind, key, 0)
    }
}

/// First match among the subtrees of the children of `n` from index `k` on.
pub open spec fn kids_find(n: DOMNode, kind: QueryKind, key: Seq<char>, k: int) -> Option<DOMNode>
    decreases n, 0int, n.children@.len() - k,
{
    if k < 0 || k >= n.children@.len() {
        None
    } else {
        match pre_find(n.children@[k], kind, key) {
            Some(x) => Some(x),
            None => kids_find(n, kind, key, k + 1),
        }
    }
}

/// The nodes of the subtree of `n` in document order: `n`, then the
/// subtrees of its children in order.
pub open spec fn preorder(n: DOMNode) -> Seq<DOMNode>
    decreases n, 1int,
{
    seq![n] + preorder_kids(n, 0)
}

/// The subtrees of the children of `n` from index `k` on, in document order.
pub open spec fn preorder_kids(n: DOMNode, k: int) -> Seq<DOMNode>
    decreases n, 0int, n.children@.len() - k,
{
    if k < 0 || k >= n.children@.len() {
        Seq::empty()
    } else {
        preorder(n.children@[k]) + preorder_kids(n, k + 1)
    }
}

/// The first node of `s` that matches.
pub open spec fn first_match(s: Seq<DOMNode>, kind: QueryKind, key: Seq<char>) -> Option<DOMNode>
    decreases s.len(),
{
    if s.len() == 0 {
        None
    } else if node_matches(s[0], kind, key) {
        Some(s[0])
    } else {
        first_match(s.drop_first(), kind, key)
    }
}

/// The first match of a concatenation is that of its first part, else that
/// of the second.
proof fn lemma_first_match_concat(a: Seq<DOMNode>, b: Seq<DOMNode>, kind: QueryKind, key: Seq<char>)
    ensures
        first_match(a + b, kind, key) == (match first_match(a, kind, key) {
            Some(x) => Some(x),
            None => first_match(b, kind, key),
        }),
    decreases a.len(),
{
    if a.len() > 0 {
        assert((a + b).drop_first() =~= a.drop_first() + b);
        assert((a + b)[0] == a[0]);
        lemma_first_match_concat(a.drop_first(), b, kind, key);
    } else {
        assert(a + b =~= b);
    }
}

/// A search of a subtree finds the first matching node in document order:
/// the node itself when it matches, else the first match among its
/// descendants, earlier children first.
pub proof fn lemma_find_is_first_in_document_order(n: DOMNode, kind: QueryKind, key: Seq<char>)
    ensures
        pre_find(n, kind, key) == first_match(preorder(n), kind, key),
    decreases n, 1int,
{
    let one = seq![n];
    lemma_first_match_concat(one, preorder_kids(n, 0), kind, key);
    assert(one.drop_first() =~= Seq::<DOMNode>::empty());
    assert(one[0] == n);
    assert(first_match(one.drop_first(), kind, key) is None);
    lemma_kids_find_first(n, kind, key, 0);
}

/// What [`lemma_find_is_first_in_document_order`] states, for the children
/// from index `k` on.
proof fn lemma_kids_find_first(n: DOMNode, kind: QueryKind, key: Seq<char>, k: int)
    ensures
        kids_find(n, kind, key, k) == first_match(preorder_kids(n, k), kind, key),
    decreases n, 0int, n.children@.len() - k,
{
    if 0 <= k < n.children@.len() {
        lemma_find_is_first_in_document_order(n.children@[k], kind, key);
        lemma_kids_find_first(n, kind, key, k + 1);
        lemma_first_match_concat(preorder(n.children@[k]), preorder_kids(n, k + 1), kind, key);
    }
}

/// A node that matches is what a search of its subtree finds.
pub proof fn lemma_matching_root_is_found(n: DOMNode, kind: QueryKind, key: Seq<char>)
    requires
        node_matches(n, kind, key),
    ensures
        pre_find(n, kind, key) == Some(n),
{
    lemma_find_is_first_in_document_order(n, kind, key);
}

/// The kind and key of a simple selector.
pub open spec fn query_of(sel: Seq<char>) -> (QueryKind, Seq<char>) {
    if sel.len() > 0 && sel[0] == '#' {
        (QueryKind::ById, sel.drop_first())
    } else if sel.len() > 0 && sel[0] == '.' {
        (QueryKind::ByClass, sel.drop_first())
    } else {
        (QueryKind::ByTag, sel)
    }
}

/// Whether `n` matches the query.
fn node_matches_exec(n: &DOMNode, kind: &QueryKind, key: &[char]) -> (b: bool)
    ensures
        b == node_matches(*n, *kind, key@),
{
    match kind {
        QueryKind::ById => match n.id_attr() {
            Some(v) => {
                let vc = chars_of(v.as_str());
                crate::text::seq_eq(&vc, key)
            },
            None => false,
        },
        QueryKind::ByClass => match n.class() {
            Some(v) => {
                let vc = chars_of(v.as_str());
                has_word(&vc, key)
            },
            None => false,
        },
        QueryKind::ByTag => match n.tag_name() {
            Some(t) => {
                let tc = chars_of(t);
                crate::text::seq_eq(&tc, key)
            },
            None => false,
        },
    }
}

/// Preorder search for the first match in the subtree of `n`.
fn find_node<'a>(n: &'a DOMNode, kind: &QueryKind, key: &[char]) -> (r: Option<&'a DOMNode>)
    ensures
        match pre_find(*n, *kind, key@) {
            Some(x) => r matches Some(y) && *y == x,
            None => r is None,
        },
    decreases *n, 1int,
{
    if node_matches_exec(n, kind, key) {
        return Some(n);
    }
    find_in_children(n, kind, key, 0)
}

/// Search among the children of `n` from index `k` on.
fn find_in_children<'a>(n: &'a DOMNode, kind: &QueryKind, key: &[char], k: usize) -> (r: Option<&'a DOMNode>)
    ensures
        match kids_find(*n, *kind, key@, k as int) {
            Some(x) => r matches Some(y) && *y == x,
            None => r is None,
        },
    decreases *n, 0int, n.children@.len() - k,
{
    if k >= n.children.len() {
        return None;
    }
    match find_node(&n.children[k], kind, key) {
        Some(x) => Some(x),
        None => find_in_children(n, kind, key, k + 1),
    }
}

/// A DOM tree with its root node.
#[derive(Debug)]
pub struct DOMTree {
    /// The root node.
    pub root: DOMNode,
}

impl DOMTree {
    /// A tree with the given root.
    pub fn new(root: DOMNode) -> (t: Self)
        ensures
            t.root == root,
    {
        DOMTree { root }
    }

    /// The root node.
    pub fn root(&self) -> (r: &DOMNode)
        ensures
            *r == self.root,
    {
        &self.root
    }

    /// The root node, for modification.
    pub fn root_mut(&mut self) -> (r: &mut DOMNode)
        ensures
            *r == old(self).root,
            final(self).root == *final(r),
    {
        &mut self.root
    }

    /// First node in document order matching `#id`, `.class` or a tag name.
    pub fn query_selector(&self, selector: &str) -> (r: Option<&DOMNode>)
        ensures
            match pre_find(self.root, query_of(selector@).0, query_of(selector@).1) {
                Some(x) => r matches Some(y) && *y == x,
                None => r is None,
            },
    {
        let sel = chars_of(selector);
        if sel.len() > 0 && sel[0] == '#' {
            let key = sub_chars(&sel, 1, sel.len());
            assert(key@ =~= sel@.drop_first());
            find_node(&self.root, &QueryKind::ById, &key)
        } else if sel.len() > 0 && sel[0] == '.' {
            let key = sub_chars(&sel, 1, sel.len());
            assert(key@ =~= sel@.drop_first());
            find_node(&self.root, &QueryKind::ByClass, &key)
        } else {
            find_node(&self.root, &QueryKind::ByTag, &sel)
        }
    }
}

} // verus!
