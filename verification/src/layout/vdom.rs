//! Virtual DOM: a light tree of elements, text and comments, the patches that
//! turn one tree into another, and their application to a DOM tree.
use vstd::prelude::*;
use vstd::math::{max, min};
use crate::strmap::StrMap;
use crate::text::{lowercase, owned, str_eq, to_lowercase};
use crate::layout::dom::{DOMNode, NodeType};
use crate::layout::domtree::{node_at, replaced_at, same_node_fields, node_by_path, node_by_path_mut};
use crate::layout::domtree::{lemma_replaced_node_at, copy_indices};

verus! {

/// A node of the virtual tree.
#[derive(Debug)]
pub enum VNode {
    /// An element.
    Element(VElement),
    /// A text node.
    Text(String),
    /// A comment.
    Comment(String),
}

/// An element of the virtual tree.
#[derive(Debug)]
pub struct VElement {
    /// Tag name, lower case.
    pub tag: String,
    /// Attributes by name.
    pub attrs: StrMap<String>,
    /// Child nodes in order.
    pub children: Vec<VNode>,
    /// Key used to match list items.
    pub key: Option<String>,
}

/// The characters of an optional string.
pub open spec fn opt_view(o: Option<String>) -> Option<Seq<char>> {
    match o {
        Some(s) => Some(s@),
        None => None,
    }
}

/// Children of a virtual node (none unless it is an element).
pub open spec fn vkids(n: VNode) -> Seq<VNode> {
    match n {
        VNode::Element(e) => e.children@,
        _ => Seq::empty(),
    }
}

/// `a` and `b` are equal trees: same kinds, tags, attributes (in the same
/// order), keys, texts and children.
pub open spec fn vsame(a: VNode, b: VNode) -> bool
    decreases a, 1int,
{
    match a {
        VNode::Element(x) => match b {
            VNode::Element(y) => {
                &&& x.tag@ == y.tag@
                &&& x.attrs.sview() == y.attrs.sview()
                &&& x.attrs.key_seq() == y.attrs.key_seq()
                &&& opt_view(x.key) == opt_view(y.key)
                &&& x.children@.len() == y.children@.len()
                &&& vkids_same(a, b, x.children@.len() as int)
            },
            _ => false,
        },
        VNode::Text(s) => b matches VNode::Text(t) && s@ == t@,
        VNode::Comment(s) => b matches VNode::Comment(t) && s@ == t@,
    }
}

/// The first `k` children of `a` and `b` are equal trees.
pub open spec fn vkids_same(a: VNode, b: VNode, k: int) -> bool
    decreases a, 0int, k,
{
    if k <= 0 {
        true
    } else {
        match a {
            VNode::Element(x) => {
                &&& k <= x.children@.len()
                &&& k <= vkids(b).len()
                &&& vkids_same(a, b, k - 1)
                &&& vsame(x.children@[k - 1], vkids(b)[k - 1])
            },
            _ => false,
        }
    }
}

/// Extending the compared children keeps what held of the prefix.
pub proof fn lemma_vkids_same_prefix(a: VNode, b: VNode, c: VNode, k: int)
    requires
        a == c || (a is Element && c is Element && vkids(a).len() >= k && vkids(c).len() >= k && forall|
            j: int,
        | 0 <= j < k ==> vkids(a)[j] == vkids(c)[j]),
        0 <= k,
    ensures
        vkids_same(a, b, k) == vkids_same(c, b, k),
    decreases k,
{
    if k > 0 && a != c {
        lemma_vkids_same_prefix(a, b, c, k - 1);
    }
}

impl VElement {
    /// A new element with no attributes, children or key; the tag is lower-cased.
    pub fn new(tag: &str) -> (e: Self)
        ensures
            e.tag@ == lowercase(tag@),
            e.attrs@ == Map::<Seq<char>, String>::empty(),
            e.attrs.key_seq().len() == 0,
            e.children@.len() == 0,
            e.key is None,
    {
        VElement { tag: to_lowercase(tag), attrs: StrMap::new(), children: Vec::new(), key: None }
    }

    /// The element with an attribute set.
    pub fn attr(self, key: &str, value: &str) -> (e: Self)
        ensures
            e.tag == self.tag,
            e.attrs.sview() == self.attrs.sview().insert(key@, value@),
            self.attrs@.dom().contains(key@) ==> e.attrs.key_seq() == self.attrs.key_seq(),
            !self.attrs@.dom().contains(key@) ==> e.attrs.key_seq() == self.attrs.key_seq().push(key@),
            e.children == self.children,
            e.key == self.key,
    {
        let mut s = self;
        s.attrs.set_str(key, value);
        s
    }

    /// The element with its key set.
    pub fn key(self, key: &str) -> (e: Self)
        ensures
            e.tag == self.tag,
            e.attrs == self.attrs,
            e.children == self.children,
            opt_view(e.key) == Some(key@),
    {
        let mut s = self;
        s.key = Some(owned(key));
        s
    }

    /// The element with one more child at the end.
    pub fn child<T: Into<VNode>>(self, child: T) -> (e: Self)
        ensures
            e.tag == self.tag,
            e.attrs == self.attrs,
            e.key == self.key,
            e.children@.len() == self.children@.len() + 1,
            e.children@.drop_last() == self.children@,
            <T as vstd::std_specs::convert::IntoSpec<VNode>>::obeys_into_spec() ==> e.children@.last()
                == <T as vstd::std_specs::convert::IntoSpec<VNode>>::into_spec(child),
    {
        let mut s = self;
        s.children.push(child.into());
        s
    }

    /// The element with more children at the end.
    pub fn children(self, children: Vec<VNode>) -> (e: Self)
        ensures
            e.tag == self.tag,
            e.attrs == self.attrs,
            e.key == self.key,
            e.children@ == self.children@ + children@,
    {
        let mut s = self;
        let mut children = children;
        s.children.append(&mut children);
        s
    }

    /// An equal copy.
    pub fn copy(&self) -> (e: Self)
        ensures
            vsame(VNode::Element(e), VNode::Element(*self)),
        decreases self, 1int,
    {
        let tag = self.tag.clone();
        let attrs = self.attrs.copy();
        let key = match &self.key {
            Some(k) => Some(k.clone()),
            None => None,
        };
        let mut children: Vec<VNode> = Vec::new();
        let mut i: usize = 0;
        while i < self.children.len()
            invariant
                i <= self.children@.len(),
                children@.len() == i,
                forall|j: int| 0 <= j < i ==> vsame(#[trigger] children@[j], self.children@[j]),
            decreases self.children@.len() - i,
        {
            let c = self.children[i].copy();
            children.push(c);
            i = i + 1;
        }
        let e = VElement { tag, attrs, children, key };
        proof {
            let a = VNode::Element(e);
            let b = VNode::Element(*self);
            lemma_vkids_same_all(a, b, e.children@.len() as int);
            assert(e.tag@ == self.tag@);
            assert(e.attrs.sview() == self.attrs.sview());
            assert(e.attrs.key_seq() == self.attrs.key_seq());
            assert(opt_view(e.key) == opt_view(self.key));
        }
        e
    }
}

/// Pairwise equal children give equal child lists.
proof fn lemma_vkids_same_all(a: VNode, b: VNode, k: int)
    requires
        a is Element,
        b is Element,
        0 <= k <= vkids(a).len(),
        k <= vkids(b).len(),
        forall|j: int| 0 <= j < k ==> vsame(#[trigger] vkids(a)[j], vkids(b)[j]),
    ensures
        vkids_same(a, b, k),
    decreases k,
{
    if k > 0 {
        lemma_vkids_same_all(a, b, k - 1);
    }
}

impl VNode {
    /// A new element (see [`VElement::new`]).
    pub fn element(tag: &str) -> (e: VElement)
        ensures
            e.tag@ == lowercase(tag@),
            e.attrs@ == Map::<Seq<char>, String>::empty(),
            e.attrs.key_seq().len() == 0,
            e.children@.len() == 0,
            e.key is None,
    {
        VElement::new(tag)
    }

    /// A text node.
    pub fn text(content: &str) -> (n: Self)
        ensures
            n matches VNode::Text(t) && t@ == content@,
    {
        VNode::Text(owned(content))
    }

    /// A comment node.
    pub fn comment(content: &str) -> (n: Self)
        ensures
            n matches VNode::Comment(t) && t@ == content@,
    {
        VNode::Comment(owned(content))
    }

    /// Tag name of an element.
    pub fn tag_name(&self) -> (r: Option<&str>)
        ensures
            match self {
                VNode::Element(e) => r matches Some(t) && t@ == e.tag@,
                _ => r is None,
            },
    {
        match self {
            VNode::Element(elem) => Some(elem.tag.as_str()),
            _ => None,
        }
    }

    /// Key of an element.
    pub fn key(&self) -> (r: Option<&str>)
        ensures
            match self {
                VNode::Element(e) => match e.key {
                    Some(k) => r matches Some(t) && t@ == k@,
                    None => r is None,
                },
                _ => r is None,
            },
    {
        match self {
            VNode::Element(elem) => match &elem.key {
                Some(k) => Some(k.as_str()),
                None => None,
            },
            _ => None,
        }
    }

    /// An equal copy of the tree.
    pub fn copy(&self) -> (n: Self)
        ensures
            vsame(n, *self),
        decreases self,
    {
        match self {
            VNode::Element(e) => VNode::Element(e.copy()),
            VNode::Text(t) => VNode::Text(t.clone()),
            VNode::Comment(t) => VNode::Comment(t.clone()),
        }
    }
}

impl From<VElement> for VNode {
    fn from(elem: VElement) -> (n: VNode) {
        VNode::Element(elem)
    }
}

impl vstd::std_specs::convert::FromSpecImpl<VElement> for VNode {
    open spec fn obeys_from_spec() -> bool {
        true
    }

    open spec fn from_spec(v: VElement) -> VNode {
        VNode::Element(v)
    }
}


/// A change to a DOM tree, produced by [`VTree::diff`].
#[derive(Debug)]
pub enum Patch {
    /// Insert `node` as child `index` of the node at `parent_path`.
    Insert {
        /// Path of the parent.
        parent_path: Vec<usize>,
        /// Position of the new child.
        index: usize,
        /// The node to insert.
        node: VNode,
    },
    /// Remove child `index` of the node at `parent_path`.
    Remove {
        /// Path of the parent.
        parent_path: Vec<usize>,
        /// Position of the child.
        index: usize,
    },
    /// Replace the node at `path` by `new_node`.
    Replace {
        /// Path of the node.
        path: Vec<usize>,
        /// The replacement.
        new_node: VNode,
    },
    /// Update the attributes of the node at `path`.
    UpdateAttrs {
        /// Path of the node.
        path: Vec<usize>,
        /// Attributes added or changed.
        added: StrMap<String>,
        /// Attributes removed.
        removed: Vec<String>,
    },
    /// Set the text of the node at `path`.
    UpdateText {
        /// Path of the node.
        path: Vec<usize>,
        /// The new text.
        text: String,
    },
}

/// What a patch should be: paths and texts by their views.
pub enum PatchSpec {
    /// Insert at parent path and index.
    Insert(Seq<usize>, int, VNode),
    /// Remove at parent path and index.
    Remove(Seq<usize>, int),
    /// Replace at path.
    Replace(Seq<usize>, VNode),
    /// Update attributes at path: added values, their key order, removed keys.
    UpdateAttrs(Seq<usize>, Map<Seq<char>, Seq<char>>, Seq<Seq<char>>, Seq<Seq<char>>),
    /// Set text at path.
    UpdateText(Seq<usize>, Seq<char>),
}

/// The characters of each string.
pub open spec fn strs_view(v: Seq<String>) -> Seq<Seq<char>> {
    v.map_values(|s: String| s@)
}

/// `p` is the patch described by `q`.
pub open spec fn patch_matches(p: Patch, q: PatchSpec) -> bool {
    match p {
        Patch::Insert { parent_path, index, node } => q matches PatchSpec::Insert(pp, i, n) && parent_path@
            == pp && index == i && vsame(node, n),
        Patch::Remove { parent_path, index } => q matches PatchSpec::Remove(pp, i) && parent_path@ == pp
            && index == i,
        Patch::Replace { path, new_node } => q matches PatchSpec::Replace(pp, n) && path@ == pp && vsame(
            new_node,
            n,
        ),
        Patch::UpdateAttrs { path, added, removed } => q matches PatchSpec::UpdateAttrs(pp, m, ks, rs)
            && path@ == pp && added.sview() == m && added.key_seq() == ks && strs_view(removed@) == rs,
        Patch::UpdateText { path, text } => q matches PatchSpec::UpdateText(pp, t) && path@ == pp && text@
            == t,
    }
}

/// Each patch of `ps` is described by the same entry of `qs`.
pub open spec fn patches_match(ps: Seq<Patch>, qs: Seq<PatchSpec>) -> bool {
    ps.len() == qs.len() && forall|i: int| 0 <= i < ps.len() ==> patch_matches(#[trigger] ps[i], qs[i])
}

/// Whether the attribute `k` of `n` is new or changed with respect to `o`.
pub open spec fn attr_changed(o: Map<Seq<char>, Seq<char>>, n: Map<Seq<char>, Seq<char>>, k: Seq<char>) -> bool {
    !o.contains_key(k) || o[k] != n[k]
}

/// The new or changed keys among the first `i` keys of `n`, in order.
pub open spec fn added_keys(o: StrMap<String>, n: StrMap<String>, i: int) -> Seq<Seq<char>>
    decreases i,
{
    if i <= 0 {
        Seq::empty()
    } else {
        let k = n.key_seq()[i - 1];
        added_keys(o, n, i - 1) + if attr_changed(o.sview(), n.sview(), k) {
            seq![k]
        } else {
            Seq::empty()
        }
    }
}

/// The keys among the first `i` keys of `o` that `n` does not have.
pub open spec fn removed_keys(o: StrMap<String>, n: StrMap<String>, i: int) -> Seq<Seq<char>>
    decreases i,
{
    if i <= 0 {
        Seq::empty()
    } else {
        let k = o.key_seq()[i - 1];
        removed_keys(o, n, i - 1) + if !n.sview().contains_key(k) {
            seq![k]
        } else {
            Seq::empty()
        }
    }
}

/// The new and changed attributes of `n` with their values.
pub open spec fn added_map(o: StrMap<String>, n: StrMap<String>) -> Map<Seq<char>, Seq<char>> {
    Map::new(
        |k: Seq<char>| n.sview().contains_key(k) && attr_changed(o.sview(), n.sview(), k),
        |k: Seq<char>| n.sview()[k],
    )
}

/// The attribute patch for elements `o` and `n` at `path`, if any.
pub open spec fn attr_patch(o: VElement, n: VElement, path: Seq<usize>) -> Seq<PatchSpec> {
    let ak = added_keys(o.attrs, n.attrs, n.attrs.key_seq().len() as int);
    let rk = removed_keys(o.attrs, n.attrs, o.attrs.key_seq().len() as int);
    if ak.len() == 0 && rk.len() == 0 {
        Seq::empty()
    } else {
        seq![PatchSpec::UpdateAttrs(path, added_map(o.attrs, n.attrs), ak, rk)]
    }
}

/// The patches that turn `old` into `new`, both placed at `path`.
pub open spec fn diff_spec(old: VNode, new: VNode, path: Seq<usize>) -> Seq<PatchSpec>
    decreases old, 1int,
{
    match old {
        VNode::Element(o) => match new {
            VNode::Element(n) => if o.tag@ != n.tag@ {
                seq![PatchSpec::Replace(path, new)]
            } else {
                attr_patch(o, n, path) + diff_kids(
                    old,
                    new,
                    path,
                    if o.children@.len() < n.children@.len() {
                        n.children@.len() as int
                    } else {
                        o.children@.len() as int
                    },
                )
            },
            _ => seq![PatchSpec::Replace(path, new)],
        },
        VNode::Text(a) => match new {
            VNode::Text(b) => if a@ != b@ {
                seq![PatchSpec::UpdateText(path, b@)]
            } else {
                Seq::empty()
            },
            _ => seq![PatchSpec::Replace(path, new)],
        },
        VNode::Comment(a) => match new {
            VNode::Comment(b) => if a@ != b@ {
                seq![PatchSpec::UpdateText(path, b@)]
            } else {
                Seq::empty()
            },
            _ => seq![PatchSpec::Replace(path, new)],
        },
    }
}

/// The patches for the first `k` child positions of `old` and `new`: the
/// patches of each pair, an insertion for each extra new child and a
/// removal for each extra old child.
pub open spec fn diff_kids(old: VNode, new: VNode, path: Seq<usize>, k: int) -> Seq<PatchSpec>
    decreases old, 0int, k,
{
    if k <= 0 {
        Seq::empty()
    } else {
        let i = k - 1;
        let oc = vkids(old);
        let nc = vkids(new);
        diff_kids(old, new, path, k - 1) + match old {
            VNode::Element(o) => if i < o.children@.len() && i < nc.len() {
                diff_spec(o.children@[i], nc[i], path.push(i as usize))
            } else if i < nc.len() {
                seq![PatchSpec::Insert(path, i, nc[i])]
            } else if i < o.children@.len() {
                seq![PatchSpec::Remove(path, i)]
            } else {
                Seq::empty()
            },
            _ => Seq::empty(),
        }
    }
}

/// A virtual DOM tree.
#[derive(Debug)]
pub struct VTree {
    /// The root node.
    pub root: VNode,
}

/// `v` is the virtual node of the DOM node `d`: element tags lower-cased,
/// the same attributes in the same order, no keys, texts kept.
pub open spec fn vnode_of(d: DOMNode, v: VNode) -> bool
    decreases d, 1int,
{
    match d.node_type {
        NodeType::Element(t) => match v {
            VNode::Element(x) => {
                &&& x.tag@ == lowercase(t@)
                &&& x.attrs.sview() == d.attributes.sview()
                &&& x.attrs.key_seq() == d.attributes.key_seq()
                &&& x.key is None
                &&& x.children@.len() == d.children@.len()
                &&& vnode_kids(d, v, d.children@.len() as int)
            },
            _ => false,
        },
        NodeType::Text(t) => v matches VNode::Text(s) && s@ == t@,
        NodeType::Comment(t) => v matches VNode::Comment(s) && s@ == t@,
    }
}

/// The first `k` children of `v` are the virtual nodes of those of `d`.
pub open spec fn vnode_kids(d: DOMNode, v: VNode, k: int) -> bool
    decreases d, 0int, k,
{
    if k <= 0 {
        true
    } else {
        &&& k <= d.children@.len()
        &&& k <= vkids(v).len()
        &&& vnode_kids(d, v, k - 1)
        &&& vnode_of(d.children@[k - 1], vkids(v)[k - 1])
    }
}

/// `d` is a fresh DOM node built from `v` under the parent `pid`: element
/// tags lower-cased, the same attributes, texts kept, new identifiers.
pub open spec fn dom_of(v: VNode, d: DOMNode, pid: u64) -> bool
    decreases v, 1int,
{
    &&& d.parent_id == pid
    &&& d.id != 0
    &&& match v {
        VNode::Element(x) => {
            &&& d.node_type matches NodeType::Element(t) && t@ == lowercase(x.tag@)
            &&& d.attributes.sview() == x.attrs.sview()
            &&& d.children@.len() == x.children@.len()
            &&& dom_kids(v, d, x.children@.len() as int)
        },
        VNode::Text(s) => {
            &&& d.node_type matches NodeType::Text(t) && t@ == s@
            &&& d.attributes@.dom().len() == 0
            &&& d.children@.len() == 0
        },
        VNode::Comment(s) => {
            &&& d.node_type matches NodeType::Comment(t) && t@ == s@
            &&& d.attributes@.dom().len() == 0
            &&& d.children@.len() == 0
        },
    }
}

/// The first `k` children of `d` are built from those of `v`.
pub open spec fn dom_kids(v: VNode, d: DOMNode, k: int) -> bool
    decreases v, 0int, k,
{
    if k <= 0 {
        true
    } else {
        &&& k <= vkids(v).len()
        &&& k <= d.children@.len()
        &&& dom_kids(v, d, k - 1)
        &&& dom_of(vkids(v)[k - 1], d.children@[k - 1], d.id)
    }
}


/// Pairwise virtual nodes give the children relation.
proof fn lemma_vnode_kids_all(d: DOMNode, v: VNode, k: int)
    requires
        0 <= k <= d.children@.len(),
        k <= vkids(v).len(),
        forall|j: int| 0 <= j < k ==> vnode_of(#[trigger] d.children@[j], vkids(v)[j]),
    ensures
        vnode_kids(d, v, k),
    decreases k,
{
    if k > 0 {
        lemma_vnode_kids_all(d, v, k - 1);
    }
}

/// Pairwise built children give the children relation.
proof fn lemma_dom_kids_all(v: VNode, d: DOMNode, k: int)
    requires
        0 <= k <= vkids(v).len(),
        k <= d.children@.len(),
        forall|j: int| 0 <= j < k ==> dom_of(#[trigger] vkids(v)[j], d.children@[j], d.id),
    ensures
        dom_kids(v, d, k),
    decreases k,
{
    if k > 0 {
        lemma_dom_kids_all(v, d, k - 1);
    }
}

impl VTree {
    /// A tree with the given root.
    pub fn new<T: Into<VNode>>(root: T) -> (t: Self)
        ensures
            <T as vstd::std_specs::convert::IntoSpec<VNode>>::obeys_into_spec() ==> t.root == <T as vstd::std_specs::convert::IntoSpec<
                VNode,
            >>::into_spec(root),
    {
        VTree { root: root.into() }
    }

    /// The virtual tree of a DOM node.
    pub fn from_dom_node(node: &DOMNode) -> (t: Self)
        ensures
            vnode_of(*node, t.root),
    {
        VTree { root: Self::convert_to_vnode(node) }
    }

    /// The virtual node of a DOM node.
    fn convert_to_vnode(node: &DOMNode) -> (v: VNode)
        ensures
            vnode_of(*node, v),
        decreases *node,
    {
        match &node.node_type {
            NodeType::Element(tag) => {
                let mut velement = VElement::new(tag.as_str());
                velement.attrs = node.attributes.copy();
                let mut i: usize = 0;
                while i < node.children.len()
                    invariant
                        i <= node.children@.len(),
                        velement.children@.len() == i,
                        velement.tag@ == lowercase(tag@),
                        velement.attrs@ == node.attributes@,
                        velement.attrs.key_seq() == node.attributes.key_seq(),
                        velement.key is None,
                        forall|j: int| 0 <= j < i ==> vnode_of(#[trigger] node.children@[j], velement.children@[j]),
                    decreases node.children@.len() - i,
                {
                    let c = Self::convert_to_vnode(&node.children[i]);
                    velement.children.push(c);
                    i = i + 1;
                }
                let v = VNode::Element(velement);
                proof {
                    lemma_vnode_kids_all(*node, v, node.children@.len() as int);
                }
                v
            },
            NodeType::Text(text) => VNode::Text(text.clone()),
            NodeType::Comment(comment) => VNode::Comment(comment.clone()),
        }
    }

    /// A fresh DOM tree built from this tree.
    pub fn to_dom_node(&self) -> (d: DOMNode)
        ensures
            dom_of(self.root, d, 0),
    {
        Self::convert_to_dom_node(&self.root, 0)
    }

    /// A fresh DOM node built from `vnode`, under the parent `parent_id`.
    fn convert_to_dom_node(vnode: &VNode, parent_id: u64) -> (d: DOMNode)
        ensures
            dom_of(*vnode, d, parent_id),
        decreases *vnode,
    {
        match vnode {
            VNode::Element(velement) => Self::element_to_dom_node(velement, parent_id),
            VNode::Text(text) => {
                let mut dom_node = DOMNode::new_text(text.as_str());
                dom_node.parent_id = parent_id;
                dom_node
            },
            VNode::Comment(comment) => {
                let mut dom_node = DOMNode::new_comment(comment.as_str());
                dom_node.parent_id = parent_id;
                dom_node
            },
        }
    }

    /// A fresh DOM element built from `velement`, under the parent `parent_id`.
    fn element_to_dom_node(velement: &VElement, parent_id: u64) -> (d: DOMNode)
        ensures
            dom_of(VNode::Element(*velement), d, parent_id),
        decreases *velement, 1int,
    {
        let mut dom_node = DOMNode::new_element(velement.tag.as_str());
        dom_node.parent_id = parent_id;
        let mut i: usize = 0;
        let n = velement.attrs.len();
        while i < n
            invariant
                i <= n,
                n == velement.attrs.entry_seq().len(),
                dom_node.parent_id == parent_id,
                dom_node.id != 0,
                dom_node.node_type matches NodeType::Element(t) && t@ == lowercase(velement.tag@),
                dom_node.children@.len() == 0,
                dom_node.attributes.sview() == Map::new(
                    |k: Seq<char>| velement.attrs.key_seq().take(i as int).contains(k),
                    |k: Seq<char>| velement.attrs.sview()[k],
                ),
            decreases n - i,
        {
            let key = velement.attrs.key_at(i);
            let value = velement.attrs.value_at(i);
            dom_node.set_attribute(key.as_str(), value.as_str());
            i = i + 1;
            proof {
                let ks = velement.attrs.key_seq();
                assert(ks.take(i as int) =~= ks.take(i - 1).push(ks[i - 1]));
                assert(key@ == ks[i - 1]);
                assert(value@ == velement.attrs.sview()[ks[i - 1]]);
                assert forall|k: Seq<char>| ks.take(i as int).contains(k) <==> (ks.take(i - 1).contains(k) || k == ks[i - 1]) by {
                    if ks.take(i as int).contains(k) {
                        let j = choose|j: int| 0 <= j < i && #[trigger] ks.take(i as int)[j] == k;
                        if j < i - 1 {
                            assert(ks.take(i - 1)[j] == k);
                        }
                    }
                    if ks.take(i - 1).contains(k) {
                        let j = choose|j: int| 0 <= j < i - 1 && #[trigger] ks.take(i - 1)[j] == k;
                        assert(ks.take(i as int)[j] == k);
                    }
                    if k == ks[i - 1] {
                        assert(ks.take(i as int)[i - 1] == k);
                    }
                }
                assert(dom_node.attributes.sview() =~= Map::new(
                    |k: Seq<char>| velement.attrs.key_seq().take(i as int).contains(k),
                    |k: Seq<char>| velement.attrs.sview()[k],
                ));
            }
        }
        proof {
            let ks = velement.attrs.key_seq();
            use_type_invariant(&velement.attrs);
            velement.attrs.lemma_keys();
            assert(ks.take(n as int) =~= ks);
            assert(dom_node.attributes.sview() =~= velement.attrs.sview());
        }
        let pid = dom_node.id;
        let mut j: usize = 0;
        while j < velement.children.len()
            invariant
                j <= velement.children@.len(),
                dom_node.children@.len() == j,
                dom_node.id == pid,
                dom_node.parent_id == parent_id,
                pid != 0,
                dom_node.node_type matches NodeType::Element(t) && t@ == lowercase(velement.tag@),
                dom_node.attributes.sview() == velement.attrs.sview(),
                forall|k: int| 0 <= k < j ==> dom_of(#[trigger] velement.children@[k], dom_node.children@[k], pid),
            decreases velement.children@.len() - j,
        {
            let c = Self::convert_to_dom_node(&velement.children[j], pid);
            dom_node.children.push(c);
            j = j + 1;
        }
        proof {
            lemma_dom_kids_all(VNode::Element(*velement), dom_node, velement.children@.len() as int);
        }
        dom_node
    }
}


/// `new` is `old` followed by patches described by `qs`.
pub open spec fn extends(old: Seq<Patch>, new: Seq<Patch>, qs: Seq<PatchSpec>) -> bool {
    &&& new.len() == old.len() + qs.len()
    &&& forall|i: int| 0 <= i < old.len() ==> new[i] == old[i]
    &&& forall|i: int| 0 <= i < qs.len() ==> patch_matches(#[trigger] new[old.len() + i], qs[i])
}

/// Extending twice extends by both descriptions.
proof fn lemma_extends_trans(a: Seq<Patch>, b: Seq<Patch>, c: Seq<Patch>, q1: Seq<PatchSpec>, q2: Seq<PatchSpec>)
    requires
        extends(a, b, q1),
        extends(b, c, q2),
    ensures
        extends(a, c, q1 + q2),
{
    assert forall|i: int| 0 <= i < (q1 + q2).len() implies patch_matches(#[trigger] c[a.len() + i], (q1 + q2)[i]) by {
        if i < q1.len() {
            assert(c[a.len() + i] == b[a.len() + i]);
        } else {
            assert(c[b.len() + (i - q1.len())] == c[a.len() + i]);
        }
    }
}

/// Membership in a sequence with one more element.
pub proof fn lemma_contains_push<A>(s: Seq<A>, x: A, k: A)
    ensures
        s.push(x).contains(k) <==> (s.contains(k) || x == k),
{
    if s.push(x).contains(k) {
        let j = choose|j: int| 0 <= j < s.push(x).len() && #[trigger] s.push(x)[j] == k;
        if j < s.len() {
            assert(s[j] == k);
        }
    }
    if s.contains(k) {
        let j = choose|j: int| 0 <= j < s.len() && #[trigger] s[j] == k;
        assert(s.push(x)[j] == k);
    }
    if x == k {
        assert(s.push(x)[s.len() as int] == k);
    }
}

/// Keys found in the added keys are keys of `n` that changed, and back.
proof fn lemma_added_keys(o: StrMap<String>, n: StrMap<String>, i: int, k: Seq<char>)
    requires
        0 <= i <= n.key_seq().len(),
    ensures
        added_keys(o, n, i).contains(k) <==> (n.key_seq().take(i).contains(k) && attr_changed(
            o.sview(),
            n.sview(),
            k,
        )),
    decreases i,
{
    let ks = n.key_seq();
    if i > 0 {
        lemma_added_keys(o, n, i - 1, k);
        let prev = added_keys(o, n, i - 1);
        let x = ks[i - 1];
        assert(ks.take(i) =~= ks.take(i - 1).push(x));
        if attr_changed(o.sview(), n.sview(), x) {
            assert(added_keys(o, n, i) =~= prev.push(x));
        } else {
            assert(added_keys(o, n, i) =~= prev);
        }
        lemma_contains_push(prev, x, k);
        lemma_contains_push(ks.take(i - 1), x, k);
    } else {
        assert(ks.take(0) =~= Seq::<Seq<char>>::empty());
    }
}

impl VTree {
    /// The patches that turn `old_tree` into this tree.
    pub fn diff(&self, old_tree: &VTree) -> (r: Vec<Patch>)
        ensures
            patches_match(r@, diff_spec(old_tree.root, self.root, Seq::empty())),
    {
        let mut patches: Vec<Patch> = Vec::new();
        Self::diff_nodes(&old_tree.root, &self.root, &mut patches, Vec::new());
        proof {
            let qs = diff_spec(old_tree.root, self.root, Seq::empty());
            assert forall|i: int| 0 <= i < patches@.len() implies patch_matches(#[trigger] patches@[i], qs[i]) by {
                assert(patches@[0 + i] == patches@[i]);
            }
        }
        patches
    }

    /// Appends the patches that turn `old_node` into `new_node`, at `path`.
    fn diff_nodes(old_node: &VNode, new_node: &VNode, patches: &mut Vec<Patch>, path: Vec<usize>)
        ensures
            extends(old(patches)@, final(patches)@, diff_spec(*old_node, *new_node, path@)),
        decreases *old_node,
    {
        match old_node {
            VNode::Element(old_elem) => {
                match new_node {
                    VNode::Element(new_elem) => {
                        if !str_eq(old_elem.tag.as_str(), new_elem.tag.as_str()) {
                            patches.push(Patch::Replace { path, new_node: new_node.copy() });
                            return;
                        }
                        let ghost p0 = patches@;
                        Self::diff_attrs(old_elem, new_elem, patches, &path);
                        let ghost p1 = patches@;
                        Self::diff_children(old_elem, new_elem, patches, &path);
                        proof {
                            lemma_extends_trans(
                                p0,
                                p1,
                                patches@,
                                attr_patch(*old_elem, *new_elem, path@),
                                diff_kids(
                                    *old_node,
                                    *new_node,
                                    path@,
                                    if old_elem.children@.len() < new_elem.children@.len() {
                                        new_elem.children@.len() as int
                                    } else {
                                        old_elem.children@.len() as int
                                    },
                                ),
                            );
                        }
                    },
                    _ => {
                        patches.push(Patch::Replace { path, new_node: new_node.copy() });
                    },
                }
            },
            VNode::Text(old_text) => match new_node {
                VNode::Text(new_text) => {
                    if !str_eq(old_text.as_str(), new_text.as_str()) {
                        patches.push(Patch::UpdateText { path, text: new_text.clone() });
                    }
                },
                _ => {
                    patches.push(Patch::Replace { path, new_node: new_node.copy() });
                },
            },
            VNode::Comment(old_comment) => match new_node {
                VNode::Comment(new_comment) => {
                    if !str_eq(old_comment.as_str(), new_comment.as_str()) {
                        patches.push(Patch::UpdateText { path, text: new_comment.clone() });
                    }
                },
                _ => {
                    patches.push(Patch::Replace { path, new_node: new_node.copy() });
                },
            },
        }
    }

    /// Appends the attribute patch of two elements with the same tag, if any.
    fn diff_attrs(old_elem: &VElement, new_elem: &VElement, patches: &mut Vec<Patch>, path: &Vec<usize>)
        ensures
            extends(old(patches)@, final(patches)@, attr_patch(*old_elem, *new_elem, path@)),
    {
        let o = &old_elem.attrs;
        let n = &new_elem.attrs;
        proof {
            use_type_invariant(n);
            n.lemma_keys();
        }
        let mut added: StrMap<String> = StrMap::new();
        let mut i: usize = 0;
        let nlen = n.len();
        while i < nlen
            invariant
                i <= nlen,
                nlen == n.key_seq().len(),
                forall|k: Seq<char>| n@.dom().contains(k) <==> n.key_seq().contains(k),
                forall|a: int, b: int|
                    0 <= a < n.key_seq().len() && 0 <= b < n.key_seq().len() && a != b ==> n.key_seq()[a]
                        != n.key_seq()[b],
                added.key_seq() == added_keys(*o, *n, i as int),
                added.sview() == Map::new(
                    |k: Seq<char>| added_keys(*o, *n, i as int).contains(k),
                    |k: Seq<char>| n.sview()[k],
                ),
            decreases nlen - i,
        {
            let key = n.key_at(i);
            let value = n.value_at(i);
            let changed = match o.get_str(key.as_str()) {
                Some(old_value) => !str_eq(old_value.as_str(), value.as_str()),
                None => true,
            };
            let ghost ks = n.key_seq();
            proof {
                lemma_added_keys(*o, *n, i as int, ks[i as int]);
                if ks.take(i as int).contains(ks[i as int]) {
                    let j = choose|j: int| 0 <= j < i && #[trigger] ks.take(i as int)[j] == ks[i as int];
                    assert(ks[j] == ks[i as int]);
                }
                assert(!added.sview().dom().contains(key@));
                assert(!added@.dom().contains(key@));
                assert(changed == attr_changed(o.sview(), n.sview(), ks[i as int]));
            }
            if changed {
                added.set_str(key.as_str(), value.as_str());
            }
            i = i + 1;
            proof {
                assert(added.key_seq() =~= added_keys(*o, *n, i as int));
                assert forall|k: Seq<char>| #![auto] added_keys(*o, *n, i as int).contains(k) <==> (added_keys(*o, *n, i - 1).contains(k) || (changed && k == ks[i - 1])) by {
                    let prev = added_keys(*o, *n, i - 1);
                    lemma_contains_push(prev, ks[i - 1], k);
                    if changed {
                        assert(added_keys(*o, *n, i as int) =~= prev.push(ks[i - 1]));
                    } else {
                        assert(added_keys(*o, *n, i as int) =~= prev);
                    }
                }
                assert(added.sview() =~= Map::new(
                    |k: Seq<char>| added_keys(*o, *n, i as int).contains(k),
                    |k: Seq<char>| n.sview()[k],
                ));
            }
        }
        let ghost ak = added_keys(*o, *n, nlen as int);
        proof {
            assert(n.key_seq().take(nlen as int) =~= n.key_seq());
            assert forall|k: Seq<char>| ak.contains(k) <==> (n.sview().contains_key(k) && attr_changed(o.sview(), n.sview(), k)) by {
                lemma_added_keys(*o, *n, nlen as int, k);
            }
            assert(added.sview() =~= added_map(*o, *n));
        }
        let mut removed: Vec<String> = Vec::new();
        let mut j: usize = 0;
        let olen = o.len();
        proof {
            use_type_invariant(o);
            o.lemma_keys();
        }
        while j < olen
            invariant
                j <= olen,
                olen == o.key_seq().len(),
                strs_view(removed@) == removed_keys(*o, *n, j as int),
            decreases olen - j,
        {
            let key = o.key_at(j);
            if !n.contains_key(key.as_str()) {
                removed.push(key.clone());
            }
            j = j + 1;
            assert(strs_view(removed@) =~= removed_keys(*o, *n, j as int));
        }
        proof {
            use_type_invariant(&added);
            added.lemma_keys();
            added.lemma_view();
        }
        if !added.is_empty() || removed.len() > 0 {
            let ghost before = patches@;
            patches.push(Patch::UpdateAttrs { path: copy_indices(path), added, removed });
            assert(patches@.last() == patches@[before.len() as int]);
        }
    }

    /// Appends the patches of the child positions of two elements with the
    /// same tag, at `path`.
    fn diff_children(old_elem: &VElement, new_elem: &VElement, patches: &mut Vec<Patch>, path: &Vec<usize>)
        ensures
            extends(
                old(patches)@,
                final(patches)@,
                diff_kids(
                    VNode::Element(*old_elem),
                    VNode::Element(*new_elem),
                    path@,
                    if old_elem.children@.len() < new_elem.children@.len() {
                        new_elem.children@.len() as int
                    } else {
                        old_elem.children@.len() as int
                    },
                ),
            ),
        decreases *old_elem, 1int,
    {
        let ghost ov = VNode::Element(*old_elem);
        let ghost nv = VNode::Element(*new_elem);
        let olen = old_elem.children.len();
        let nlen = new_elem.children.len();
        let max_len = if olen < nlen { nlen } else { olen };
        let mut i: usize = 0;
        assert(patches@ =~= old(patches)@ + Seq::<Patch>::empty());
        while i < max_len
            invariant
                i <= max_len,
                olen == old_elem.children@.len(),
                nlen == new_elem.children@.len(),
                max_len == if olen < nlen { nlen } else { olen },
                ov == VNode::Element(*old_elem),
                nv == VNode::Element(*new_elem),
                extends(old(patches)@, patches@, diff_kids(ov, nv, path@, i as int)),
            decreases max_len - i,
        {
            let ghost before = patches@;
            let mut child_path = copy_indices(path);
            child_path.push(i);
            if i < olen && i < nlen {
                Self::diff_nodes(&old_elem.children[i], &new_elem.children[i], patches, child_path);
            } else if i < nlen {
                let node = new_elem.children[i].copy();
                patches.push(Patch::Insert { parent_path: copy_indices(path), index: i, node });
            } else {
                patches.push(Patch::Remove { parent_path: copy_indices(path), index: i });
            }
            proof {
                let step = if i < olen && i < nlen {
                    diff_spec(old_elem.children@[i as int], new_elem.children@[i as int], path@.push(i))
                } else if i < nlen {
                    seq![PatchSpec::Insert(path@, i as int, new_elem.children@[i as int])]
                } else {
                    seq![PatchSpec::Remove(path@, i as int)]
                };
                assert(extends(before, patches@, step)) by {
                    if !(i < olen && i < nlen) {
                        assert(patches@[before.len() as int] == patches@.last());
                    }
                }
                lemma_extends_trans(old(patches)@, before, patches@, diff_kids(ov, nv, path@, i as int), step);
                assert(diff_kids(ov, nv, path@, i + 1) == diff_kids(ov, nv, path@, i as int) + step);
            }
            i = i + 1;
        }
    }
}


/// Attributes `m` after removing the keys in `removed` and then setting
/// those of `added`.
pub open spec fn attrs_after(
    m: Map<Seq<char>, Seq<char>>,
    removed: Seq<Seq<char>>,
    added: Map<Seq<char>, Seq<char>>,
) -> Map<Seq<char>, Seq<char>> {
    Map::new(
        |k: Seq<char>| (m.contains_key(k) && !removed.contains(k)) || added.contains_key(k),
        |k: Seq<char>| if added.contains_key(k) { added[k] } else { m[k] },
    )
}

/// `n` is the DOM tree `o` after applying patch `p`. A patch whose target
/// cannot be reached, or whose index is past the children (but for an
/// insertion), leaves the tree as it is; text updates only touch text nodes.
pub open spec fn applied(o: DOMNode, n: DOMNode, p: Patch) -> bool {
    match p {
        Patch::Insert { parent_path, index, node } => match node_at(o, parent_path@, 0) {
            Some(pn) => {
                let q = node_at(n, parent_path@, 0)->0;
                &&& node_at(n, parent_path@, 0) is Some
                &&& replaced_at(o, n, parent_path@, 0, q)
                &&& same_node_fields(pn, q)
                &&& q.children@.len() == pn.children@.len() + 1
                &&& q.children@ == pn.children@.insert(index as int, q.children@[index as int])
                &&& dom_of(node, q.children@[index as int], pn.id)
            },
            None => n == o,
        },
        Patch::Remove { parent_path, index } => match node_at(o, parent_path@, 0) {
            Some(pn) => if index < pn.children@.len() {
                let q = node_at(n, parent_path@, 0)->0;
                &&& node_at(n, parent_path@, 0) is Some
                &&& replaced_at(o, n, parent_path@, 0, q)
                &&& same_node_fields(pn, q)
                &&& q.children@ == pn.children@.remove(index as int)
            } else {
                n == o
            },
            None => n == o,
        },
        Patch::Replace { path, new_node } => if path@.len() == 0 {
            dom_of(new_node, n, 0)
        } else {
            let pp = path@.drop_last();
            let i = path@.last() as int;
            match node_at(o, pp, 0) {
                Some(pn) => if i < pn.children@.len() {
                    let q = node_at(n, pp, 0)->0;
                    &&& node_at(n, pp, 0) is Some
                    &&& replaced_at(o, n, pp, 0, q)
                    &&& same_node_fields(pn, q)
                    &&& q.children@ == pn.children@.update(i, q.children@[i])
                    &&& dom_of(new_node, q.children@[i], pn.id)
                } else {
                    n == o
                },
                None => n == o,
            }
        },
        Patch::UpdateAttrs { path, added, removed } => match node_at(o, path@, 0) {
            Some(m) => {
                let q = node_at(n, path@, 0)->0;
                &&& node_at(n, path@, 0) is Some
                &&& replaced_at(o, n, path@, 0, q)
                &&& q.id == m.id
                &&& q.node_type == m.node_type
                &&& q.children == m.children
                &&& q.parent_id == m.parent_id
                &&& q.attributes.sview() == attrs_after(m.attributes.sview(), strs_view(removed@), added.sview())
            },
            None => n == o,
        },
        Patch::UpdateText { path, text } => match node_at(o, path@, 0) {
            Some(m) => if m.node_type is Text {
                let q = node_at(n, path@, 0)->0;
                &&& node_at(n, path@, 0) is Some
                &&& replaced_at(o, n, path@, 0, q)
                &&& q.node_type matches NodeType::Text(t) && t@ == text@
                &&& q.id == m.id
                &&& q.attributes == m.attributes
                &&& q.children == m.children
                &&& q.parent_id == m.parent_id
            } else {
                n == o
            },
            None => n == o,
        },
    }
}

/// Patch `p` can be applied to `o`: an insertion whose parent is found has
/// its index within the children.
pub open spec fn insert_ok(o: DOMNode, p: Patch) -> bool {
    p matches Patch::Insert { parent_path, index, .. } ==> (node_at(o, parent_path@, 0) matches Some(pn)
        ==> index <= pn.children@.len())
}

/// Every patch of `ps` can be applied to whatever tree the patches before
/// it produce from `o`.
pub open spec fn ok_from(o: DOMNode, ps: Seq<Patch>) -> bool
    decreases ps.len(),
{
    ps.len() == 0 || (insert_ok(o, ps[0]) && forall|n: DOMNode|
        #![trigger applied(o, n, ps[0])]
        applied(o, n, ps[0]) ==> ok_from(n, ps.drop_first()))
}

/// `ts` lists the trees from `o` to `n`, each obtained from the one before
/// by the patch of `ps` at the same position.
pub open spec fn patch_trace(o: DOMNode, n: DOMNode, ps: Seq<Patch>, ts: Seq<DOMNode>) -> bool {
    &&& ts.len() == ps.len() + 1
    &&& ts[0] == o
    &&& ts.last() == n
    &&& forall|i: int| 0 <= i < ps.len() ==> applied(#[trigger] ts[i], ts[i + 1], ps[i])
}

/// `n` is `o` after applying the patches of `ps` in order.
pub open spec fn applied_all(o: DOMNode, n: DOMNode, ps: Seq<Patch>) -> bool {
    exists|ts: Seq<DOMNode>| patch_trace(o, n, ps, ts)
}

impl VTree {
    /// Applies the patches in order to `dom_root`.
    pub fn apply_patches(&self, dom_root: &mut DOMNode, patches: &[Patch])
        requires
            ok_from(*old(dom_root), patches@),
        ensures
            applied_all(*old(dom_root), *final(dom_root), patches@),
    {
        let n = patches.len();
        let mut i: usize = 0;
        assert(patches@.skip(0) =~= patches@);
        let ghost mut ts: Seq<DOMNode> = seq![*dom_root];
        while i < n
            invariant
                i <= n,
                n == patches@.len(),
                ok_from(*dom_root, patches@.skip(i as int)),
                patch_trace(*old(dom_root), *dom_root, patches@.take(i as int), ts),
            decreases n - i,
        {
            let ghost before = *dom_root;
            let ghost rest = patches@.skip(i as int);
            assert(rest[0] == patches@[i as int]);
            self.apply_patch(dom_root, &patches[i]);
            proof {
                assert(applied(before, *dom_root, rest[0]));
                assert(rest.drop_first() =~= patches@.skip(i + 1));
                let ts2 = ts.push(*dom_root);
                assert forall|j: int| 0 <= j < i + 1 implies applied(#[trigger] ts2[j], ts2[j + 1], patches@.take(i + 1)[j]) by {
                    if j < i {
                        assert(ts2[j] == ts[j] && ts2[j + 1] == ts[j + 1]);
                        assert(patches@.take(i + 1)[j] == patches@.take(i as int)[j]);
                    }
                }
                ts = ts2;
            }
            i = i + 1;
        }
        assert(patches@.take(n as int) =~= patches@);
        assert(patch_trace(*old(dom_root), *dom_root, patches@, ts));
    }

    /// Applies one patch to `dom_root`.
    fn apply_patch(&self, dom_root: &mut DOMNode, patch: &Patch)
        requires
            insert_ok(*old(dom_root), *patch),
        ensures
            applied(*old(dom_root), *final(dom_root), *patch),
    {
        let ghost o = *dom_root;
        match patch {
            Patch::Insert { parent_path, index, node } => {
                if node_by_path(dom_root, parent_path, 0).is_some() {
                    let parent = node_by_path_mut(dom_root, parent_path, 0);
                    let dom_node = Self::convert_to_dom_node(node, parent.id);
                    let ghost dn = dom_node;
                    parent.children.insert(*index, dom_node);
                    proof {
                        lemma_replaced_node_at(o, *dom_root, parent_path@, 0, *parent);
                        assert(parent.children@[*index as int] == dn);
                    }
                }
            },
            Patch::Remove { parent_path, index } => {
                match node_by_path(dom_root, parent_path, 0) {
                    Some(p) => {
                        if *index < p.children.len() {
                            let parent = node_by_path_mut(dom_root, parent_path, 0);
                            parent.children.remove(*index);
                            proof {
                                lemma_replaced_node_at(o, *dom_root, parent_path@, 0, *parent);
                            }
                        }
                    },
                    None => {},
                }
            },
            Patch::Replace { path, new_node } => {
                if path.len() == 0 {
                    *dom_root = Self::convert_to_dom_node(new_node, 0);
                } else {
                    let mut parent_path = copy_indices(path);
                    let index = match parent_path.pop() {
                        Some(i) => i,
                        None => 0,
                    };
                    match node_by_path(dom_root, &parent_path, 0) {
                        Some(p) => {
                            if index < p.children.len() {
                                let parent = node_by_path_mut(dom_root, &parent_path, 0);
                                let dom_node = Self::convert_to_dom_node(new_node, parent.id);
                                parent.children.set(index, dom_node);
                                proof {
                                    lemma_replaced_node_at(o, *dom_root, parent_path@, 0, *parent);
                                }
                            }
                        },
                        None => {},
                    }
                }
            },
            Patch::UpdateAttrs { path, added, removed } => {
                if node_by_path(dom_root, path, 0).is_some() {
                    let node = node_by_path_mut(dom_root, path, 0);
                    let ghost m = *node;
                    let mut j: usize = 0;
                    while j < removed.len()
                        invariant
                            j <= removed@.len(),
                            node.id == m.id,
                            node.node_type == m.node_type,
                            node.children == m.children,
                            node.parent_id == m.parent_id,
                            node.attributes.sview() == Map::new(
                                |k: Seq<char>| m.attributes.sview().contains_key(k) && !strs_view(removed@).take(j as int).contains(k),
                                |k: Seq<char>| m.attributes.sview()[k],
                            ),
                        decreases removed@.len() - j,
                    {
                        node.attributes.remove_str(removed[j].as_str());
                        j = j + 1;
                        proof {
                            let rs = strs_view(removed@);
                            assert(rs.take(j as int) =~= rs.take(j - 1).push(rs[j - 1]));
                            assert forall|k: Seq<char>| #![auto] rs.take(j as int).contains(k) <==> (rs.take(j - 1).contains(k) || k == rs[j - 1]) by {
                                lemma_contains_push(rs.take(j - 1), rs[j - 1], k);
                            }
                            assert(node.attributes.sview() =~= Map::new(
                                |k: Seq<char>| m.attributes.sview().contains_key(k) && !rs.take(j as int).contains(k),
                                |k: Seq<char>| m.attributes.sview()[k],
                            ));
                        }
                    }
                    proof {
                        assert(strs_view(removed@).take(removed@.len() as int) =~= strs_view(removed@));
                        use_type_invariant(added);
                        added.lemma_keys();
                    }
                    let ghost rs = strs_view(removed@);
                    let alen = added.len();
                    let mut i: usize = 0;
                    while i < alen
                        invariant
                            i <= alen,
                            alen == added.key_seq().len(),
                            forall|k: Seq<char>| added@.dom().contains(k) <==> added.key_seq().contains(k),
                            node.id == m.id,
                            node.node_type == m.node_type,
                            node.children == m.children,
                            node.parent_id == m.parent_id,
                            node.attributes.sview() == Map::new(
                                |k: Seq<char>| (m.attributes.sview().contains_key(k) && !rs.contains(k)) || added.key_seq().take(i as int).contains(k),
                                |k: Seq<char>| if added.key_seq().take(i as int).contains(k) { added.sview()[k] } else { m.attributes.sview()[k] },
                            ),
                        decreases alen - i,
                    {
                        let key = added.key_at(i);
                        let value = added.value_at(i);
                        node.set_attribute(key.as_str(), value.as_str());
                        i = i + 1;
                        proof {
                            let ks = added.key_seq();
                            assert(ks.take(i as int) =~= ks.take(i - 1).push(ks[i - 1]));
                            assert forall|k: Seq<char>| #![auto] ks.take(i as int).contains(k) <==> (ks.take(i - 1).contains(k) || k == ks[i - 1]) by {
                                lemma_contains_push(ks.take(i - 1), ks[i - 1], k);
                            }
                            assert(node.attributes.sview() =~= Map::new(
                                |k: Seq<char>| (m.attributes.sview().contains_key(k) && !rs.contains(k)) || ks.take(i as int).contains(k),
                                |k: Seq<char>| if ks.take(i as int).contains(k) { added.sview()[k] } else { m.attributes.sview()[k] },
                            ));
                        }
                    }
                    proof {
                        assert(added.key_seq().take(alen as int) =~= added.key_seq());
                        assert(node.attributes.sview() =~= attrs_after(m.attributes.sview(), rs, added.sview()));
                        lemma_replaced_node_at(o, *dom_root, path@, 0, *node);
                    }
                }
            },
            Patch::UpdateText { path, text } => {
                let is_text = match node_by_path(dom_root, path, 0) {
                    Some(n) => match &n.node_type {
                        NodeType::Text(_) => true,
                        _ => false,
                    },
                    None => false,
                };
                if is_text {
                    let node = node_by_path_mut(dom_root, path, 0);
                    node.node_type = NodeType::Text(text.clone());
                    proof {
                        lemma_replaced_node_at(o, *dom_root, path@, 0, *node);
                    }
                }
            },
        }
    }
}


/// `e` has the shape of `d`: the same kinds and texts, and for elements the
/// same attributes and children, tags lower-cased twice.
pub open spec fn same_shape(d: DOMNode, e: DOMNode) -> bool
    decreases d, 1int,
{
    match d.node_type {
        NodeType::Element(t) => {
            &&& e.node_type matches NodeType::Element(u) && u@ == lowercase(lowercase(t@))
            &&& e.attributes.sview() == d.attributes.sview()
            &&& e.children@.len() == d.children@.len()
            &&& same_shape_kids(d, e, d.children@.len() as int)
        },
        NodeType::Text(t) => e.node_type matches NodeType::Text(u) && u@ == t@,
        NodeType::Comment(t) => e.node_type matches NodeType::Comment(u) && u@ == t@,
    }
}

/// The first `k` children of `e` have the shape of those of `d`.
pub open spec fn same_shape_kids(d: DOMNode, e: DOMNode, k: int) -> bool
    decreases d, 0int, k,
{
    if k <= 0 {
        true
    } else {
        &&& k <= d.children@.len()
        &&& k <= e.children@.len()
        &&& same_shape_kids(d, e, k - 1)
        &&& same_shape(d.children@[k - 1], e.children@[k - 1])
    }
}

/// A DOM tree taken to a virtual tree and back keeps its shape: kinds,
/// texts, attributes and children.
pub proof fn lemma_dom_roundtrip(d: DOMNode, v: VNode, e: DOMNode, pid: u64)
    requires
        vnode_of(d, v),
        dom_of(v, e, pid),
    ensures
        same_shape(d, e),
    decreases d, 1int,
{
    if d.node_type is Element {
        lemma_dom_roundtrip_kids(d, v, e, d.children@.len() as int);
    }
}

/// What [`lemma_dom_roundtrip`] states, for the first `k` children.
proof fn lemma_dom_roundtrip_kids(d: DOMNode, v: VNode, e: DOMNode, k: int)
    requires
        vnode_of(d, v),
        dom_of(v, e, e.parent_id),
        d.node_type is Element,
        0 <= k <= d.children@.len(),
    ensures
        same_shape_kids(d, e, k),
    decreases d, 0int, k,
{
    if k > 0 {
        lemma_dom_roundtrip_kids(d, v, e, k - 1);
        lemma_vnode_kid(d, v, k - 1, d.children@.len() as int);
        lemma_dom_kid(v, e, k - 1, vkids(v).len() as int);
        lemma_dom_roundtrip(d.children@[k - 1], vkids(v)[k - 1], e.children@[k - 1], e.id);
    }
}

/// One child of a virtual node relation.
proof fn lemma_vnode_kid(d: DOMNode, v: VNode, j: int, k: int)
    requires
        vnode_kids(d, v, k),
        0 <= j < k,
    ensures
        vnode_of(d.children@[j], vkids(v)[j]),
    decreases k,
{
    if j < k - 1 {
        lemma_vnode_kid(d, v, j, k - 1);
    }
}

/// One child of a built DOM node relation.
proof fn lemma_dom_kid(v: VNode, d: DOMNode, j: int, k: int)
    requires
        dom_kids(v, d, k),
        0 <= j < k,
    ensures
        dom_of(vkids(v)[j], d.children@[j], d.id),
    decreases k,
{
    if j < k - 1 {
        lemma_dom_kid(v, d, j, k - 1);
    }
}

/// One child of the equal-children relation.
proof fn lemma_vsame_kid(a: VNode, b: VNode, j: int, k: int)
    requires
        vkids_same(a, b, k),
        0 <= j < k,
    ensures
        vsame(vkids(a)[j], vkids(b)[j]),
    decreases k,
{
    if j < k - 1 {
        lemma_vsame_kid(a, b, j, k - 1);
    }
}

/// No attribute of equal attribute maps is new, changed or removed.
proof fn lemma_attrs_unchanged(o: StrMap<String>, n: StrMap<String>, i: int, j: int)
    requires
        o.sview() == n.sview(),
        o.key_seq() == n.key_seq(),
        0 <= i <= n.key_seq().len(),
        0 <= j <= o.key_seq().len(),
    ensures
        added_keys(o, n, i).len() == 0,
        removed_keys(o, n, j).len() == 0,
    decreases i + j,
{
    n.lemma_key_seq_in_dom();
    o.lemma_key_seq_in_dom();
    if i > 0 {
        lemma_attrs_unchanged(o, n, i - 1, j);
        assert(n.sview().contains_key(n.key_seq()[i - 1]));
    }
    if j > 0 {
        lemma_attrs_unchanged(o, n, i, j - 1);
        assert(n.sview().contains_key(o.key_seq()[j - 1]));
    }
}

/// Comparing a tree with an equal tree gives no patches.
pub proof fn lemma_diff_same(a: VNode, b: VNode, path: Seq<usize>)
    requires
        vsame(a, b),
    ensures
        diff_spec(a, b, path).len() == 0,
    decreases a, 1int,
{
    match a {
        VNode::Element(x) => {
            let y = b->Element_0;
            lemma_attrs_unchanged(x.attrs, y.attrs, y.attrs.key_seq().len() as int, x.attrs.key_seq().len() as int);
            lemma_diff_same_kids(a, b, path, x.children@.len() as int);
        },
        _ => {},
    }
}

/// What [`lemma_diff_same`] states, for the first `k` child positions.
proof fn lemma_diff_same_kids(a: VNode, b: VNode, path: Seq<usize>, k: int)
    requires
        vsame(a, b),
        a is Element,
        0 <= k <= vkids(a).len(),
    ensures
        diff_kids(a, b, path, k).len() == 0,
    decreases a, 0int, k,
{
    if k > 0 {
        lemma_diff_same_kids(a, b, path, k - 1);
        lemma_vsame_kid(a, b, k - 1, vkids(a).len() as int);
        lemma_diff_same(vkids(a)[k - 1], vkids(b)[k - 1], path.push((k - 1) as usize));
    }
}

/// A DOM node built from a tree is built from every equal tree.
pub proof fn lemma_dom_of_same(a: VNode, b: VNode, n: DOMNode, pid: u64)
    requires
        vsame(a, b),
        dom_of(a, n, pid),
    ensures
        dom_of(b, n, pid),
    decreases a, 1int,
{
    if a is Element {
        lemma_dom_kids_same(a, b, n, vkids(a).len() as int);
    }
}

/// What [`lemma_dom_of_same`] states, for the first `k` children.
proof fn lemma_dom_kids_same(a: VNode, b: VNode, n: DOMNode, k: int)
    requires
        vsame(a, b),
        a is Element,
        dom_of(a, n, n.parent_id),
        0 <= k <= vkids(a).len(),
    ensures
        dom_kids(b, n, k),
    decreases a, 0int, k,
{
    if k > 0 {
        lemma_dom_kids_same(a, b, n, k - 1);
        lemma_vsame_kid(a, b, k - 1, vkids(a).len() as int);
        lemma_dom_kid(a, n, k - 1, vkids(a).len() as int);
        lemma_dom_of_same(vkids(a)[k - 1], vkids(b)[k - 1], n.children@[k - 1], n.id);
    }
}

/// Following one step more from a node reached by a path.
proof fn lemma_node_at_push(t: DOMNode, q: Seq<usize>, k: usize, d: int)
    requires
        0 <= d <= q.len(),
    ensures
        node_at(t, q.push(k), d) == (match node_at(t, q, d) {
            Some(s) => if (k as int) < s.children@.len() {
                Some(s.children@[k as int])
            } else {
                None::<DOMNode>
            },
            None => None::<DOMNode>,
        }),
    decreases q.len() - d,
{
    if d < q.len() {
        assert(q.push(k)[d] == q[d]);
        if q[d] < t.children@.len() {
            lemma_node_at_push(t.children@[q[d] as int], q, k, d + 1);
        }
    } else {
        assert(q.push(k)[d] == k);
        if (k as int) < t.children@.len() {
            assert(node_at(t.children@[k as int], q.push(k), d + 1) == Some(t.children@[k as int]));
        }
    }
}

/// A tree is itself with the node at a path put back.
proof fn lemma_replaced_refl(t: DOMNode, q: Seq<usize>, d: int)
    requires
        0 <= d <= q.len(),
        node_at(t, q, d) is Some,
    ensures
        replaced_at(t, t, q, d, node_at(t, q, d)->0),
    decreases q.len() - d,
{
    if d < q.len() {
        lemma_replaced_refl(t.children@[q[d] as int], q, d + 1);
    }
}

/// Replacing a node by one that differs only in child `k` replaces that
/// child.
proof fn lemma_replaced_push(o: DOMNode, n: DOMNode, q: Seq<usize>, d: int, k: usize, p: DOMNode, p2: DOMNode)
    requires
        0 <= d <= q.len(),
        replaced_at(o, n, q, d, p2),
        node_at(o, q, d) == Some(p),
        same_node_fields(p, p2),
        p2.children@.len() == p.children@.len(),
        (k as int) < p.children@.len(),
        forall|j: int| 0 <= j < p.children@.len() && j != k ==> p2.children@[j] == p.children@[j],
    ensures
        replaced_at(o, n, q.push(k), d, p2.children@[k as int]),
    decreases q.len() - d,
{
    if d < q.len() {
        assert(q.push(k)[d] == q[d]);
        let i = q[d] as int;
        lemma_replaced_push(o.children@[i], n.children@[i], q, d + 1, k, p, p2);
    } else {
        assert(q.push(k)[d] == k);
        assert(n == p2);
        assert(p == o);
        assert(replaced_at(o.children@[k as int], n.children@[k as int], q.push(k), d + 1, p2.children@[k as int]));
    }
}

/// Replacing child `k` of the node at a path replaces that node by one
/// that differs only there.
proof fn lemma_replaced_pop(o: DOMNode, n: DOMNode, q: Seq<usize>, d: int, k: usize, x: DOMNode)
    requires
        0 <= d <= q.len(),
        replaced_at(o, n, q.push(k), d, x),
    ensures
        node_at(o, q, d) is Some,
        node_at(n, q, d) is Some,
        replaced_at(o, n, q, d, node_at(n, q, d)->0),
        same_node_fields(node_at(o, q, d)->0, node_at(n, q, d)->0),
        (k as int) < node_at(o, q, d)->0.children@.len(),
        node_at(n, q, d)->0.children@ == node_at(o, q, d)->0.children@.update(k as int, x),
    decreases q.len() - d,
{
    if d < q.len() {
        assert(q.push(k)[d] == q[d]);
        let i = q[d] as int;
        lemma_replaced_pop(o.children@[i], n.children@[i], q, d + 1, k, x);
    } else {
        assert(q.push(k)[d] == k);
        assert(replaced_at(o.children@[k as int], n.children@[k as int], q.push(k), d + 1, x));
        assert(n.children@[k as int] == x);
        assert(n.children@ =~= o.children@.update(k as int, x));
    }
}

/// Two replacements at the same path make one.
proof fn lemma_replaced_trans(a: DOMNode, b: DOMNode, c: DOMNode, q: Seq<usize>, d: int, x: DOMNode, y: DOMNode)
    requires
        0 <= d <= q.len(),
        replaced_at(a, b, q, d, x),
        replaced_at(b, c, q, d, y),
    ensures
        replaced_at(a, c, q, d, y),
    decreases q.len() - d,
{
    if d < q.len() {
        let i = q[d] as int;
        lemma_replaced_trans(a.children@[i], b.children@[i], c.children@[i], q, d + 1, x, y);
    }
}

/// Patches applied one list after another.
#[verifier::rlimit(40)]
proof fn lemma_applied_split(o: DOMNode, n: DOMNode, a: Seq<Patch>, b: Seq<Patch>)
    requires
        applied_all(o, n, a + b),
    ensures
        exists|m: DOMNode| applied_all(o, m, a) && applied_all(m, n, b),
{
    let ts = choose|ts: Seq<DOMNode>| patch_trace(o, n, a + b, ts);
    let m = ts[a.len() as int];
    let t1 = ts.take((a.len() + 1) as int);
    let t2 = ts.skip(a.len() as int);
    assert forall|i: int| 0 <= i < a.len() implies applied(#[trigger] t1[i], t1[i + 1], a[i]) by {
        assert((a + b)[i] == a[i]);
    }
    assert(patch_trace(o, m, a, t1));
    assert forall|i: int| 0 <= i < b.len() implies applied(#[trigger] t2[i], t2[i + 1], b[i]) by {
        assert((a + b)[a.len() + i] == b[i]);
        assert(ts[a.len() + i] == t2[i]);
    }
    assert(patch_trace(m, n, b, t2));
    assert(applied_all(o, m, a));
    assert(applied_all(m, n, b));
}

/// No patches change nothing; one patch is applied once.
proof fn lemma_applied_short(o: DOMNode, n: DOMNode, ps: Seq<Patch>)
    requires
        applied_all(o, n, ps),
        ps.len() <= 1,
    ensures
        ps.len() == 0 ==> n == o,
        ps.len() == 1 ==> applied(o, n, ps[0]),
{
    let ts = choose|ts: Seq<DOMNode>| patch_trace(o, n, ps, ts);
    if ps.len() == 1 {
        assert(applied(ts[0], ts[1], ps[0]));
    }
}

/// Patches described by a concatenation split along it.
proof fn lemma_match_split(ps: Seq<Patch>, qa: Seq<PatchSpec>, qb: Seq<PatchSpec>)
    requires
        patches_match(ps, qa + qb),
    ensures
        ps == ps.take(qa.len() as int) + ps.skip(qa.len() as int),
        patches_match(ps.take(qa.len() as int), qa),
        patches_match(ps.skip(qa.len() as int), qb),
{
    assert(ps =~= ps.take(qa.len() as int) + ps.skip(qa.len() as int));
    assert forall|i: int| 0 <= i < qa.len() implies patch_matches(#[trigger] ps.take(qa.len() as int)[i], qa[i]) by {
        assert(patch_matches(ps[i], (qa + qb)[i]));
    }
    assert forall|i: int| 0 <= i < qb.len() implies patch_matches(#[trigger] ps.skip(qa.len() as int)[i], qb[i]) by {
        assert(patch_matches(ps[qa.len() + i], (qa + qb)[qa.len() + i]));
    }
}

/// Keys found in the removed keys are keys of `o` that `n` lacks, and back.
proof fn lemma_removed_keys(o: StrMap<String>, n: StrMap<String>, i: int, k: Seq<char>)
    requires
        0 <= i <= o.key_seq().len(),
    ensures
        removed_keys(o, n, i).contains(k) <==> (o.key_seq().take(i).contains(k) && !n.sview().contains_key(k)),
    decreases i,
{
    let ks = o.key_seq();
    if i > 0 {
        lemma_removed_keys(o, n, i - 1, k);
        let prev = removed_keys(o, n, i - 1);
        let x = ks[i - 1];
        assert(ks.take(i) =~= ks.take(i - 1).push(x));
        if !n.sview().contains_key(x) {
            assert(removed_keys(o, n, i) =~= prev.push(x));
        } else {
            assert(removed_keys(o, n, i) =~= prev);
        }
        lemma_contains_push(prev, x, k);
        lemma_contains_push(ks.take(i - 1), x, k);
    } else {
        assert(ks.take(0) =~= Seq::<Seq<char>>::empty());
    }
}

/// The attribute patch of two elements turns the old attributes into the
/// new ones; where there is none, they are the same already.
proof fn lemma_attr_patch(o: VElement, n: VElement)
    ensures
        ({
            let ak = added_keys(o.attrs, n.attrs, n.attrs.key_seq().len() as int);
            let rk = removed_keys(o.attrs, n.attrs, o.attrs.key_seq().len() as int);
            &&& attrs_after(o.attrs.sview(), rk, added_map(o.attrs, n.attrs)) == n.attrs.sview()
            &&& (ak.len() == 0 && rk.len() == 0 ==> o.attrs.sview() == n.attrs.sview())
        }),
{
    let om = o.attrs.sview();
    let nm = n.attrs.sview();
    let ak = added_keys(o.attrs, n.attrs, n.attrs.key_seq().len() as int);
    let rk = removed_keys(o.attrs, n.attrs, o.attrs.key_seq().len() as int);
    o.attrs.lemma_dom_in_key_seq();
    n.attrs.lemma_dom_in_key_seq();
    assert(o.attrs.key_seq().take(o.attrs.key_seq().len() as int) =~= o.attrs.key_seq());
    assert(n.attrs.key_seq().take(n.attrs.key_seq().len() as int) =~= n.attrs.key_seq());
    assert forall|k: Seq<char>| rk.contains(k) <==> (o.attrs.key_seq().contains(k) && !nm.contains_key(k)) by {
        lemma_removed_keys(o.attrs, n.attrs, o.attrs.key_seq().len() as int, k);
    }
    assert forall|k: Seq<char>| ak.contains(k) <==> (n.attrs.key_seq().contains(k) && attr_changed(om, nm, k)) by {
        lemma_added_keys(o.attrs, n.attrs, n.attrs.key_seq().len() as int, k);
    }
    assert forall|k: Seq<char>| #[trigger] om.contains_key(k) implies o.attrs.key_seq().contains(k) by {
        assert(o.attrs@.dom().contains(k) ==> o.attrs.key_seq().contains(k));
    }
    assert forall|k: Seq<char>| #[trigger] nm.contains_key(k) implies n.attrs.key_seq().contains(k) by {
        assert(n.attrs@.dom().contains(k) ==> n.attrs.key_seq().contains(k));
    }
    assert(attrs_after(om, rk, added_map(o.attrs, n.attrs)) =~= nm);
    if ak.len() == 0 && rk.len() == 0 {
        assert forall|k: Seq<char>| #[trigger] nm.contains_key(k) implies om.contains_key(k) && om[k] == nm[k] by {
            assert(!ak.contains(k));
        }
        assert forall|k: Seq<char>| #[trigger] om.contains_key(k) implies nm.contains_key(k) by {
            assert(!rk.contains(k));
        }
        assert(om =~= nm);
    }
}

/// `a` and `b` can be patched by the diff and apply round trip: elements
/// with the same tag lose at most one child (numbers of children fit in
/// `usize`, as in any list in memory), and no comment's text changes.
pub open spec fn compatible(a: VNode, b: VNode) -> bool
    decreases a, 1int,
{
    match a {
        VNode::Element(x) => match b {
            VNode::Element(y) => x.tag@ != y.tag@ || ((y.children@.len() >= x.children@.len()
                || x.children@.len() == y.children@.len() + 1) && x.children@.len() <= usize::MAX
                && y.children@.len() <= usize::MAX && compatible_kids(
                a,
                b,
                min(x.children@.len() as int, y.children@.len() as int),
            )),
            _ => true,
        },
        VNode::Text(_) => true,
        VNode::Comment(s) => match b {
            VNode::Comment(t) => s@ == t@,
            _ => true,
        },
    }
}

/// The first `k` children of `a` and `b` are compatible.
pub open spec fn compatible_kids(a: VNode, b: VNode, k: int) -> bool
    decreases a, 0int, k,
{
    if k <= 0 {
        true
    } else {
        match a {
            VNode::Element(x) => {
                &&& k <= x.children@.len()
                &&& k <= vkids(b).len()
                &&& compatible_kids(a, b, k - 1)
                &&& compatible(x.children@[k - 1], vkids(b)[k - 1])
            },
            _ => false,
        }
    }
}

/// Built children depend on the parent's identifier and children alone.
proof fn lemma_dom_kids_congr(v: VNode, a: DOMNode, b: DOMNode, k: int)
    requires
        a.children == b.children,
        a.id == b.id,
        dom_kids(v, a, k),
    ensures
        dom_kids(v, b, k),
    decreases k,
{
    if k > 0 {
        lemma_dom_kids_congr(v, a, b, k - 1);
    }
}

/// One pair of compatible children.
proof fn lemma_compatible_kid(a: VNode, b: VNode, j: int, k: int)
    requires
        compatible_kids(a, b, k),
        0 <= j < k,
    ensures
        compatible(vkids(a)[j], vkids(b)[j]),
    decreases k,
{
    if j < k - 1 {
        lemma_compatible_kid(a, b, j, k - 1);
    }
}

/// The patches that the diff of compatible trees gives at path `q`, applied
/// to a tree whose node at `q` was built from the old tree, replace that
/// node by one built from the new tree, under the same parent.
#[verifier::rlimit(40)]
proof fn lemma_subtree_round_trip(old: VNode, new: VNode, q: Seq<usize>, t: DOMNode, t2: DOMNode, ps: Seq<Patch>)
    requires
        compatible(old, new),
        node_at(t, q, 0) is Some,
        dom_of(old, node_at(t, q, 0)->0, node_at(t, q, 0)->0.parent_id),
        q.len() == 0 ==> t.parent_id == 0,
        q.len() > 0 ==> node_at(t, q.drop_last(), 0) is Some && node_at(t, q.drop_last(), 0)->0.id == node_at(
            t,
            q,
            0,
        )->0.parent_id,
        patches_match(ps, diff_spec(old, new, q)),
        applied_all(t, t2, ps),
    ensures
        node_at(t2, q, 0) is Some,
        dom_of(new, node_at(t2, q, 0)->0, node_at(t, q, 0)->0.parent_id),
        replaced_at(t, t2, q, 0, node_at(t2, q, 0)->0),
    decreases old, 1int,
{
    let s = node_at(t, q, 0)->0;
    let qs = diff_spec(old, new, q);
    let same_tag = old is Element && new is Element && old->Element_0.tag@ == new->Element_0.tag@;
    if same_tag {
        let o = old->Element_0;
        let n = new->Element_0;
        let len = o.children@.len() as int;
        let nl = n.children@.len() as int;
        let top = max(len, nl);
        let ap = attr_patch(o, n, q);
        assert(qs == ap + diff_kids(old, new, q, top));
        lemma_match_split(ps, ap, diff_kids(old, new, q, top));
        let pa = ps.take(ap.len() as int);
        let pk = ps.skip(ap.len() as int);
        lemma_applied_split(t, t2, pa, pk);
        let t1 = choose|m: DOMNode| applied_all(t, m, pa) && applied_all(m, t2, pk);
        lemma_attr_patch(o, n);
        lemma_applied_short(t, t1, pa);
        if ap.len() == 0 {
            lemma_replaced_refl(t, q, 0);
        } else {
            assert(patch_matches(pa[0], ap[0]));
            lemma_replaced_node_at(t, t1, q, 0, node_at(t1, q, 0)->0);
        }
        let s1 = node_at(t1, q, 0)->0;
        assert(replaced_at(t, t1, q, 0, s1));
        assert(s1.id == s.id && s1.node_type == s.node_type && s1.children == s.children && s1.parent_id == s.parent_id);
        assert(s1.attributes.sview() == n.attrs.sview());
        lemma_dom_kids_congr(old, s, s1, len);
        lemma_kids_round_trip(old, new, q, s1, t1, t2, pk, top);
        let s2 = node_at(t2, q, 0)->0;
        lemma_replaced_trans(t, t1, t2, q, 0, s1, s2);
        assert forall|j: int| 0 <= j < nl implies dom_of(#[trigger] vkids(new)[j], s2.children@[j], s2.id) by {
        }
        lemma_dom_kids_all(new, s2, nl);
    } else {
        match (old, new) {
            (VNode::Text(a), VNode::Text(b)) if a@ == b@ => {
                assert(qs.len() == 0);
                lemma_applied_short(t, t2, ps);
                lemma_replaced_refl(t, q, 0);
            },
            (VNode::Comment(a), VNode::Comment(b)) => {
                assert(qs.len() == 0);
                lemma_applied_short(t, t2, ps);
                lemma_replaced_refl(t, q, 0);
            },
            (VNode::Text(a), VNode::Text(b)) => {
                assert(qs.len() == 1);
                lemma_applied_short(t, t2, ps);
                assert(patch_matches(ps[0], qs[0]));
                lemma_replaced_node_at(t, t2, q, 0, node_at(t2, q, 0)->0);
            },
            _ => {
                assert(qs == seq![PatchSpec::Replace(q, new)]);
                lemma_applied_short(t, t2, ps);
                assert(patch_matches(ps[0], qs[0]));
                let new_node = ps[0]->Replace_new_node;
                if q.len() == 0 {
                    lemma_dom_of_same(new_node, new, t2, 0);
                } else {
                    let pp = q.drop_last();
                    let k = q.last();
                    assert(q == pp.push(k));
                    lemma_node_at_push(t, pp, k, 0);
                    let pn = node_at(t, pp, 0)->0;
                    let qn = node_at(t2, pp, 0)->0;
                    let x = qn.children@[k as int];
                    lemma_replaced_push(t, t2, pp, 0, k, pn, qn);
                    lemma_replaced_node_at(t, t2, q, 0, x);
                    lemma_dom_of_same(new_node, new, x, pn.id);
                }
            },
        }
    }
}

/// The number of children the node has after the patches of the first `k`
/// child positions: insertions add to the end, one removal takes the last.
pub open spec fn len_after(ol: int, nl: int, k: int) -> int {
    if k > ol {
        k
    } else if k > nl {
        ol - 1
    } else {
        ol
    }
}

/// What [`lemma_subtree_round_trip`] does for the children of two
/// compatible elements with the same tag, for the first `k` child
/// positions: the node at `q` keeps its fields, the children up to `k` are
/// built from the new tree's (extra ones inserted, a surplus one removed),
/// and the others are as they were.
#[verifier::rlimit(60)]
proof fn lemma_kids_round_trip(
    old: VNode,
    new: VNode,
    q: Seq<usize>,
    base: DOMNode,
    t1: DOMNode,
    t2: DOMNode,
    ps: Seq<Patch>,
    k: int,
)
    requires
        old is Element,
        new is Element,
        vkids(old).len() <= usize::MAX,
        vkids(new).len() <= usize::MAX,
        vkids(new).len() >= vkids(old).len() || vkids(old).len() == vkids(new).len() + 1,
        compatible_kids(old, new, min(vkids(old).len() as int, vkids(new).len() as int)),
        0 <= k <= max(vkids(old).len() as int, vkids(new).len() as int),
        node_at(t1, q, 0) == Some(base),
        base.children@.len() == vkids(old).len(),
        dom_kids(old, base, vkids(old).len() as int),
        patches_match(ps, diff_kids(old, new, q, k)),
        applied_all(t1, t2, ps),
    ensures
        node_at(t2, q, 0) is Some,
        replaced_at(t1, t2, q, 0, node_at(t2, q, 0)->0),
        same_node_fields(base, node_at(t2, q, 0)->0),
        node_at(t2, q, 0)->0.children@.len() == len_after(vkids(old).len() as int, vkids(new).len() as int, k),
        forall|j: int|
            0 <= j < k && j < vkids(new).len() ==> dom_of(#[trigger] vkids(new)[j], node_at(t2, q, 0)->0.children@[j], base.id),
        forall|j: int|
            k <= j < base.children@.len() ==> #[trigger] node_at(t2, q, 0)->0.children@[j] == base.children@[j],
    decreases old, 0int, k,
{
    let ol = vkids(old).len() as int;
    let nl = vkids(new).len() as int;
    if k == 0 {
        assert(diff_kids(old, new, q, 0).len() == 0);
        lemma_applied_short(t1, t2, ps);
        lemma_replaced_refl(t1, q, 0);
    } else {
        let i = k - 1;
        let rest = diff_kids(old, new, q, k - 1);
        let last = diff_kids(old, new, q, k).subrange(rest.len() as int, diff_kids(old, new, q, k).len() as int);
        assert(diff_kids(old, new, q, k) =~= rest + last);
        lemma_match_split(ps, rest, last);
        let pr = ps.take(rest.len() as int);
        let pl = ps.skip(rest.len() as int);
        lemma_applied_split(t1, t2, pr, pl);
        let tm = choose|m: DOMNode| applied_all(t1, m, pr) && applied_all(m, t2, pl);
        lemma_kids_round_trip(old, new, q, base, t1, tm, pr, k - 1);
        let sm = node_at(tm, q, 0)->0;
        if i < ol && i < nl {
            let kq = q.push(i as usize);
            assert(last == diff_spec(vkids(old)[i], vkids(new)[i], kq));
            lemma_node_at_push(tm, q, i as usize, 0);
            assert(sm.children@[i] == base.children@[i]);
            lemma_dom_kid(old, base, i, ol);
            lemma_compatible_kid(old, new, i, min(ol, nl));
            assert(kq.drop_last() =~= q);
            lemma_subtree_round_trip(vkids(old)[i], vkids(new)[i], kq, tm, t2, pl);
            let x = node_at(t2, kq, 0)->0;
            lemma_replaced_pop(tm, t2, q, 0, i as usize, x);
            let s2 = node_at(t2, q, 0)->0;
            lemma_replaced_trans(t1, tm, t2, q, 0, sm, s2);
            assert forall|j: int| 0 <= j < k && j < nl implies dom_of(#[trigger] vkids(new)[j], s2.children@[j], base.id) by {
                if j < i {
                    assert(s2.children@[j] == sm.children@[j]);
                }
            }
            assert forall|j: int| k <= j < base.children@.len() implies #[trigger] s2.children@[j] == base.children@[j] by {
                assert(s2.children@[j] == sm.children@[j]);
            }
        } else if i < nl {
            assert(last == seq![PatchSpec::Insert(q, i, vkids(new)[i])]);
            lemma_applied_short(tm, t2, pl);
            assert(patch_matches(pl[0], last[0]));
            let node = pl[0]->Insert_node;
            let s2 = node_at(t2, q, 0)->0;
            lemma_replaced_trans(t1, tm, t2, q, 0, sm, s2);
            assert(sm.children@.len() == i);
            lemma_dom_of_same(node, vkids(new)[i], s2.children@[i], sm.id);
            assert forall|j: int| 0 <= j < k && j < nl implies dom_of(#[trigger] vkids(new)[j], s2.children@[j], base.id) by {
                if j < i {
                    assert(s2.children@[j] == sm.children@.insert(i, s2.children@[i])[j]);
                }
            }
        } else {
            assert(last == seq![PatchSpec::Remove(q, i)]);
            lemma_applied_short(tm, t2, pl);
            assert(patch_matches(pl[0], last[0]));
            let s2 = node_at(t2, q, 0)->0;
            lemma_replaced_trans(t1, tm, t2, q, 0, sm, s2);
            assert forall|j: int| 0 <= j < k && j < nl implies dom_of(#[trigger] vkids(new)[j], s2.children@[j], base.id) by {
                assert(s2.children@[j] == sm.children@.remove(i)[j]);
            }
        }
    }
}

/// The diff of two compatible trees, applied to a DOM built from the old
/// tree, yields a DOM built from the new tree: the same kinds, tags, texts,
/// attributes and children.
pub proof fn lemma_diff_apply_round_trip(old: VNode, new: VNode, d: DOMNode, ps: Seq<Patch>, e: DOMNode)
    requires
        compatible(old, new),
        dom_of(old, d, 0),
        patches_match(ps, diff_spec(old, new, Seq::empty())),
        applied_all(d, e, ps),
    ensures
        dom_of(new, e, 0),
{
    lemma_subtree_round_trip(old, new, Seq::empty(), d, e, ps);
}

} // verus!
