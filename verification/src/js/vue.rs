//! Virtual trees built from the nodes that render functions create: a
//! registry of nodes by id, and the tree described by a map of node entries.
use vstd::prelude::*;
use vstd::string::StringExecFns;
use std::collections::HashMap;
use crate::strmap::StrMap;
use crate::text::{decimal, owned, parse_u32, parse_u32_spec, str_eq, to_decimal};
use crate::layout::vdom::{VElement, VNode, VTree};
use crate::jetcrab::esm::opt_str;

verus! {

broadcast use vstd::std_specs::hash::group_hash_axioms;

/// The nodes taken out of `m` for the ids in `ids`, in order (an id that is
/// missing, or taken already, gives nothing), and what is left of `m`.
pub open spec fn take_children(m: Map<u32, VNode>, ids: Seq<u32>) -> (Seq<VNode>, Map<u32, VNode>)
    decreases ids.len(),
{
    if ids.len() == 0 {
        (Seq::empty(), m)
    } else {
        let (kids, rest) = take_children(m, ids.drop_last());
        let id = ids.last();
        if rest.dom().contains(id) {
            (kids.push(rest[id]), rest.remove(id))
        } else {
            (kids, rest)
        }
    }
}

/// The attributes of optional props.
pub open spec fn props_view(props: Option<StrMap<String>>) -> Map<Seq<char>, String> {
    match props {
        Some(p) => p@,
        None => Map::empty(),
    }
}

/// An element with the given tag, attributes and children, and no key.
pub open spec fn is_element(n: VNode, tag: Seq<char>, attrs: Map<Seq<char>, String>, kids: Seq<VNode>) -> bool {
    n matches VNode::Element(e) && e.tag@ == tag && e.attrs@ == attrs && e.children@ == kids && e.key is None
}

/// The nodes created by render functions, by id.
#[derive(Debug)]
pub struct VNodeRegistry {
    nodes: HashMap<u32, VNode>,
    next_id: u32,
}

impl VNodeRegistry {
    /// The nodes by id.
    pub closed spec fn nodes(&self) -> Map<u32, VNode> {
        self.nodes@
    }

    /// The id the next node gets.
    pub closed spec fn next(&self) -> u32 {
        self.next_id
    }

    /// Every id in use is below the next one, and ids start at 1.
    pub open spec fn wf(&self) -> bool {
        &&& self.next() >= 1
        &&& forall|k: u32| self.nodes().dom().contains(k) ==> 1 <= k < self.next()
    }

    /// An empty registry; ids start at 1.
    pub fn new() -> (r: Self)
        ensures
            r.wf(),
            r.next() == 1,
            r.nodes() == Map::<u32, VNode>::empty(),
    {
        VNodeRegistry { nodes: HashMap::new(), next_id: 1 }
    }

    /// Creates an element and returns its id: its children are the nodes
    /// of `children_ids`, taken out of the registry.
    pub fn create_element(
        &mut self,
        tag: &str,
        props: Option<StrMap<String>>,
        children_ids: Vec<u32>,
    ) -> (id: u32)
        requires
            old(self).wf(),
            old(self).next() < u32::MAX,
        ensures
            final(self).wf(),
            id == old(self).next(),
            final(self).next() == old(self).next() + 1,
            final(self).nodes().dom().contains(id),
            final(self).nodes().remove(id) == take_children(old(self).nodes(), children_ids@).1,
            is_element(
                final(self).nodes()[id],
                tag@,
                props_view(props),
                take_children(old(self).nodes(), children_ids@).0,
            ),
    {
        let id = self.next_id;
        self.next_id = self.next_id + 1;
        let mut children: Vec<VNode> = Vec::new();
        let mut i: usize = 0;
        while i < children_ids.len()
            invariant
                i <= children_ids@.len(),
                self.next_id == id + 1,
                (children@, self.nodes@) == take_children(old(self).nodes(), children_ids@.take(i as int)),
                forall|k: u32| self.nodes@.dom().contains(k) ==> 1 <= k < id,
            decreases children_ids@.len() - i,
        {
            let cid = children_ids[i];
            proof {
                assert(children_ids@.take(i + 1).drop_last() =~= children_ids@.take(i as int));
                assert(children_ids@.take(i + 1).last() == cid);
            }
            match self.nodes.remove(&cid) {
                Some(n) => {
                    children.push(n);
                },
                None => {},
            }
            i = i + 1;
        }
        assert(children_ids@.take(children_ids@.len() as int) =~= children_ids@);
        let attrs = match props {
            Some(p) => p,
            None => StrMap::new(),
        };
        let ghost rest = self.nodes@;
        let e = VElement { tag: owned(tag), attrs, children, key: None };
        self.nodes.insert(id, VNode::Element(e));
        assert(self.nodes@.remove(id) =~= rest);
        id
    }

    /// Creates a text node and returns its id.
    pub fn create_text(&mut self, content: &str) -> (id: u32)
        requires
            old(self).wf(),
            old(self).next() < u32::MAX,
        ensures
            final(self).wf(),
            id == old(self).next(),
            final(self).next() == old(self).next() + 1,
            final(self).nodes().dom().contains(id),
            final(self).nodes().remove(id) == old(self).nodes(),
            final(self).nodes()[id] matches VNode::Text(t) && t@ == content@,
    {
        let id = self.next_id;
        self.next_id = self.next_id + 1;
        let ghost before = self.nodes@;
        assert(!old(self).nodes().dom().contains(id));
        self.nodes.insert(id, VNode::Text(owned(content)));
        assert(self.nodes@.remove(id) =~= before);
        id
    }

    /// Creates a comment and returns its id.
    pub fn create_comment(&mut self, content: &str) -> (id: u32)
        requires
            old(self).wf(),
            old(self).next() < u32::MAX,
        ensures
            final(self).wf(),
            id == old(self).next(),
            final(self).next() == old(self).next() + 1,
            final(self).nodes().dom().contains(id),
            final(self).nodes().remove(id) == old(self).nodes(),
            final(self).nodes()[id] matches VNode::Comment(t) && t@ == content@,
    {
        let id = self.next_id;
        self.next_id = self.next_id + 1;
        let ghost before = self.nodes@;
        assert(!old(self).nodes().dom().contains(id));
        self.nodes.insert(id, VNode::Comment(owned(content)));
        assert(self.nodes@.remove(id) =~= before);
        id
    }

    /// Takes the node `root_id` out of the registry as the root of a tree.
    pub fn build_tree(&mut self, root_id: u32) -> (r: Option<VTree>)
        requires
            old(self).wf(),
        ensures
            final(self).wf(),
            final(self).next() == old(self).next(),
            final(self).nodes() == old(self).nodes().remove(root_id),
            match r {
                Some(t) => old(self).nodes().dom().contains(root_id) && t.root == old(self).nodes()[root_id],
                None => !old(self).nodes().dom().contains(root_id),
            },
    {
        match self.nodes.remove(&root_id) {
            Some(root) => Some(VTree { root }),
            None => None,
        }
    }
}

/// A node of a map describing a tree, with the fields a render function
/// records, each as a string when it is one.
#[derive(Debug)]
pub struct VNodeEntry {
    /// `element`, `text` or `comment`.
    pub node_type: Option<String>,
    /// Tag of an element.
    pub tag: Option<String>,
    /// Content of a text or comment.
    pub content: Option<String>,
    /// Props of an element, when they form an object: each name with its
    /// value when that is a string.
    pub props: Option<Vec<(String, Option<String>)>>,
    /// Children of an element, when they form an array: each id when it is a
    /// string.
    pub children: Option<Vec<Option<String>>>,
}

/// The shape of a virtual node: tag, attributes and children of an element,
/// or the content of a text or comment.
pub enum VShape {
    /// An element.
    Element(Seq<char>, Map<Seq<char>, Seq<char>>, Seq<VShape>),
    /// A text node.
    Text(Seq<char>),
    /// A comment.
    Comment(Seq<char>),
}

/// `v` has the shape `s` (and no keys).
pub open spec fn has_shape(v: VNode, s: VShape) -> bool
    decreases s,
{
    match s {
        VShape::Element(t, a, ks) => v matches VNode::Element(e) && e.tag@ == t && e.attrs.sview() == a
            && e.key is None && e.children@.len() == ks.len() && forall|i: int|
            0 <= i < ks.len() ==> has_shape(#[trigger] e.children@[i], ks[i]),
        VShape::Text(c) => v matches VNode::Text(x) && x@ == c,
        VShape::Comment(c) => v matches VNode::Comment(x) && x@ == c,
    }
}

/// The ids among the children, each read as a `u32`; others are skipped.
pub open spec fn child_ids_upto(kids: Seq<Option<String>>, k: int) -> Seq<u32>
    decreases k,
{
    if k <= 0 {
        Seq::empty()
    } else {
        let rest = child_ids_upto(kids, k - 1);
        match kids[k - 1] {
            Some(s) => match parse_u32_spec(s@) {
                Some(v) => rest.push(v),
                None => rest,
            },
            None => rest,
        }
    }
}

/// The ids of an entry's children.
pub open spec fn child_ids(e: VNodeEntry) -> Seq<u32> {
    match e.children {
        Some(kids) => child_ids_upto(kids@, kids@.len() as int),
        None => Seq::empty(),
    }
}

/// The attributes of the first `k` props: the string-valued ones, later
/// ones replacing earlier of the same name.
pub open spec fn attrs_upto(props: Seq<(String, Option<String>)>, k: int) -> Map<Seq<char>, Seq<char>>
    decreases k,
{
    if k <= 0 {
        Map::empty()
    } else {
        let rest = attrs_upto(props, k - 1);
        match props[k - 1].1 {
            Some(v) => rest.insert(props[k - 1].0@, v@),
            None => rest,
        }
    }
}

/// The attributes of an entry.
pub open spec fn attrs_of(e: VNodeEntry) -> Map<Seq<char>, Seq<char>> {
    match e.props {
        Some(p) => attrs_upto(p@, p@.len() as int),
        None => Map::empty(),
    }
}

/// The shape that the node `id` of `m` describes, or the first error met
/// building it depth first; `None` when `fuel` levels do not suffice.
pub open spec fn build_spec(m: Map<Seq<char>, VNodeEntry>, id: u32, fuel: nat) -> Option<Result<VShape, Seq<char>>>
    decreases fuel, 0int,
{
    if fuel == 0 {
        None
    } else {
        let key = decimal(id as nat);
        if !m.dom().contains(key) {
            Some(Err("VNode "@ + key + " not found in map"@))
        } else {
            let e = m[key];
            match e.node_type {
                None => Some(Err("VNode missing type field"@)),
                Some(t) => if t@ == "element"@ {
                    match e.tag {
                        None => Some(Err("Element VNode missing tag"@)),
                        Some(tag) => match build_kids(m, child_ids(e), 0, (fuel - 1) as nat) {
                            None => None,
                            Some(Err(x)) => Some(Err(x)),
                            Some(Ok(ks)) => Some(Ok(VShape::Element(tag@, attrs_of(e), ks))),
                        },
                    }
                } else if t@ == "text"@ {
                    match e.content {
                        None => Some(Err("Text VNode missing content"@)),
                        Some(c) => Some(Ok(VShape::Text(c@))),
                    }
                } else if t@ == "comment"@ {
                    match e.content {
                        None => Some(Err("Comment VNode missing content"@)),
                        Some(c) => Some(Ok(VShape::Comment(c@))),
                    }
                } else {
                    Some(Err("Unknown VNode type: "@ + t@))
                },
            }
        }
    }
}

/// The shapes of the children `ids[i..]`, or the first error.
pub open spec fn build_kids(m: Map<Seq<char>, VNodeEntry>, ids: Seq<u32>, i: int, fuel: nat) -> Option<
    Result<Seq<VShape>, Seq<char>>,
>
    decreases fuel, ids.len() - i + 1,
{
    if i < 0 || i >= ids.len() {
        Some(Ok(Seq::empty()))
    } else {
        match build_spec(m, ids[i], fuel) {
            None => None,
            Some(Err(x)) => Some(Err(x)),
            Some(Ok(s)) => match build_kids(m, ids, i + 1, fuel) {
                None => None,
                Some(Err(x)) => Some(Err(x)),
                Some(Ok(rest)) => Some(Ok(seq![s] + rest)),
            },
        }
    }
}

/// The ids of an entry's children.
fn child_ids_exec(e: &VNodeEntry) -> (r: Vec<u32>)
    ensures
        r@ == child_ids(*e),
{
    let mut out: Vec<u32> = Vec::new();
    match &e.children {
        Some(kids) => {
            let mut i: usize = 0;
            while i < kids.len()
                invariant
                    i <= kids@.len(),
                    out@ == child_ids_upto(kids@, i as int),
                decreases kids@.len() - i,
            {
                match &kids[i] {
                    Some(s) => match parse_u32(s.as_str()) {
                        Some(v) => {
                            out.push(v);
                        },
                        None => {},
                    },
                    None => {},
                }
                i = i + 1;
            }
        },
        None => {},
    }
    out
}

/// The attributes of an entry.
fn attrs_exec(e: &VNodeEntry) -> (r: StrMap<String>)
    ensures
        r.sview() == attrs_of(*e),
{
    let mut out: StrMap<String> = StrMap::new();
    match &e.props {
        Some(props) => {
            let mut i: usize = 0;
            while i < props.len()
                invariant
                    i <= props@.len(),
                    out.sview() == attrs_upto(props@, i as int),
                decreases props@.len() - i,
            {
                match &props[i].1 {
                    Some(v) => {
                        out.set_str(props[i].0.as_str(), v.as_str());
                    },
                    None => {},
                }
                i = i + 1;
            }
        },
        None => {
            assert(out.sview() =~= Map::<Seq<char>, Seq<char>>::empty());
        },
    }
    out
}

/// Builds the node `id` of the map, with `fuel` levels known to suffice.
fn build_node(map: &StrMap<VNodeEntry>, id: u32, Ghost(fuel): Ghost<nat>) -> (r: Result<VNode, String>)
    requires
        build_spec(map@, id, fuel) is Some,
    ensures
        match build_spec(map@, id, fuel)->0 {
            Ok(s) => r matches Ok(v) && has_shape(v, s),
            Err(x) => r matches Err(e) && e@ == x,
        },
    decreases fuel,
{
    let key = to_decimal(id as u64);
    let entry = match map.get(key.as_str()) {
        Some(e) => e,
        None => {
            return Err(owned("VNode ").concat(key.as_str()).concat(" not found in map"));
        },
    };
    let t = match &entry.node_type {
        Some(t) => t,
        None => {
            return Err(owned("VNode missing type field"));
        },
    };
    if str_eq(t.as_str(), "element") {
        let tag = match &entry.tag {
            Some(tag) => tag,
            None => {
                return Err(owned("Element VNode missing tag"));
            },
        };
        let attrs = attrs_exec(entry);
        let ids = child_ids_exec(entry);
        let ghost f = (fuel - 1) as nat;
        let ghost m = map@;
        let mut children: Vec<VNode> = Vec::new();
        let ghost mut done: Seq<VShape> = Seq::empty();
        let mut i: usize = 0;
        while i < ids.len()
            invariant
                i <= ids@.len(),
                m == map@,
                build_kids(m, ids@, 0, f) is Some,
                build_kids(m, ids@, 0, f) == (match build_kids(m, ids@, i as int, f) {
                    Some(Ok(rest)) => Some(Ok(done + rest)),
                    other => other,
                }),
                children@.len() == done.len(),
                forall|k: int| 0 <= k < done.len() ==> has_shape(#[trigger] children@[k], done[k]),
                f < fuel,
                fuel > 0,
                f == (fuel - 1) as nat,
                key@ == decimal(id as nat),
                m.dom().contains(key@),
                m[key@] == *entry,
                child_ids(*entry) == ids@,
                entry.node_type == Some(*t),
                t@ == "element"@,
                entry.tag == Some(*tag),
            decreases ids@.len() - i,
        {
            let cid = ids[i];
            let ghost before = build_kids(m, ids@, i as int, f);
            assert(build_spec(m, cid, f) is Some);
            match build_node(map, cid, Ghost(f)) {
                Ok(v) => {
                    let ghost s = build_spec(m, cid, f)->0->Ok_0;
                    children.push(v);
                    proof {
                        assert(before == (match build_kids(m, ids@, i + 1, f) {
                            None => None,
                            Some(Err(x)) => Some(Err(x)),
                            Some(Ok(rest)) => Some(Ok(seq![s] + rest)),
                        }));
                        let nd = done.push(s);
                        assert forall|r: Seq<VShape>| #![trigger done + (seq![s] + r)] done + (seq![s] + r) == nd + r by {
                            assert(done + (seq![s] + r) =~= nd + r);
                        }
                        done = nd;
                    }
                },
                Err(e) => {
                    proof {
                        let x = build_spec(m, cid, f)->0->Err_0;
                        assert(before == Some(Err::<Seq<VShape>, Seq<char>>(x)));
                        assert(build_kids(m, ids@, 0, f) == before);
                        assert(m[key@] == *entry);
                        assert(child_ids(*entry) == ids@);
                        assert(build_spec(map@, id, fuel) == Some(Err::<VShape, Seq<char>>(x)));
                    }
                    return Err(e);
                },
            }
            i = i + 1;
        }
        assert(done + Seq::<VShape>::empty() =~= done);
        let e = VElement { tag: tag.clone(), attrs, children, key: None };
        Ok(VNode::Element(e))
    } else if str_eq(t.as_str(), "text") {
        match &entry.content {
            Some(c) => Ok(VNode::Text(c.clone())),
            None => Err(owned("Text VNode missing content")),
        }
    } else if str_eq(t.as_str(), "comment") {
        match &entry.content {
            Some(c) => Ok(VNode::Comment(c.clone())),
            None => Err(owned("Comment VNode missing content")),
        }
    } else {
        Err(owned("Unknown VNode type: ").concat(t.as_str()))
    }
}

/// Once `f` levels suffice to build the node `id`, more levels give the same.
pub proof fn lemma_build_fuel(m: Map<Seq<char>, VNodeEntry>, id: u32, f: nat, g: nat)
    requires
        build_spec(m, id, f) is Some,
        f <= g,
    ensures
        build_spec(m, id, g) == build_spec(m, id, f),
    decreases f, 0int,
{
    let key = decimal(id as nat);
    if m.dom().contains(key) {
        let e = m[key];
        if let Some(t) = e.node_type {
            if t@ == "element"@ && e.tag is Some {
                lemma_kids_fuel(m, child_ids(e), 0, (f - 1) as nat, (g - 1) as nat);
            }
        }
    }
}

/// Once `f` levels suffice to build the children `ids[i..]`, more levels give
/// the same.
pub proof fn lemma_kids_fuel(m: Map<Seq<char>, VNodeEntry>, ids: Seq<u32>, i: int, f: nat, g: nat)
    requires
        build_kids(m, ids, i, f) is Some,
        f <= g,
    ensures
        build_kids(m, ids, i, g) == build_kids(m, ids, i, f),
    decreases f, ids.len() - i + 1,
{
    if 0 <= i < ids.len() {
        lemma_build_fuel(m, ids[i], f, g);
        if build_spec(m, ids[i], f)->0 is Ok {
            lemma_kids_fuel(m, ids, i + 1, f, g);
        }
    }
}

/// Builds the node `id` of the map with at most `fuel` levels; `None` when
/// they do not suffice.
fn build_node_within(map: &StrMap<VNodeEntry>, id: u32, fuel: u64) -> (r: Option<Result<VNode, String>>)
    ensures
        match build_spec(map@, id, fuel as nat) {
            None => r is None,
            Some(Ok(s)) => r matches Some(Ok(v)) && has_shape(v, s),
            Some(Err(x)) => r matches Some(Err(e)) && e@ == x,
        },
    decreases fuel,
{
    if fuel == 0 {
        return None;
    }
    let key = to_decimal(id as u64);
    let entry = match map.get(key.as_str()) {
        Some(e) => e,
        None => {
            return Some(Err(owned("VNode ").concat(key.as_str()).concat(" not found in map")));
        },
    };
    let t = match &entry.node_type {
        Some(t) => t,
        None => {
            return Some(Err(owned("VNode missing type field")));
        },
    };
    if str_eq(t.as_str(), "element") {
        let tag = match &entry.tag {
            Some(tag) => tag,
            None => {
                return Some(Err(owned("Element VNode missing tag")));
            },
        };
        let attrs = attrs_exec(entry);
        let ids = child_ids_exec(entry);
        let f: u64 = fuel - 1;
        let ghost m = map@;
        let mut children: Vec<VNode> = Vec::new();
        let ghost mut done: Seq<VShape> = Seq::empty();
        let mut i: usize = 0;
        assert(build_kids(m, ids@, 0, f as nat) == (match build_kids(m, ids@, 0, f as nat) {
            Some(Ok(rest)) => Some(Ok(done + rest)),
            other => other,
        })) by {
            assert forall|r: Seq<VShape>| #![trigger done + r] done + r == r by {
                assert(done + r =~= r);
            }
        }
        while i < ids.len()
            invariant
                i <= ids@.len(),
                m == map@,
                build_kids(m, ids@, 0, f as nat) == (match build_kids(m, ids@, i as int, f as nat) {
                    Some(Ok(rest)) => Some(Ok(done + rest)),
                    other => other,
                }),
                children@.len() == done.len(),
                forall|k: int| 0 <= k < done.len() ==> has_shape(#[trigger] children@[k], done[k]),
                fuel > 0,
                f == fuel - 1,
                key@ == decimal(id as nat),
                m.dom().contains(key@),
                m[key@] == *entry,
                child_ids(*entry) == ids@,
                entry.node_type == Some(*t),
                t@ == "element"@,
                entry.tag == Some(*tag),
            decreases ids@.len() - i,
        {
            let cid = ids[i];
            let ghost before = build_kids(m, ids@, i as int, f as nat);
            match build_node_within(map, cid, f) {
                None => {
                    assert(before is None);
                    return None;
                },
                Some(Ok(v)) => {
                    let ghost s = build_spec(m, cid, f as nat)->0->Ok_0;
                    children.push(v);
                    proof {
                        assert(before == (match build_kids(m, ids@, i + 1, f as nat) {
                            None => None,
                            Some(Err(x)) => Some(Err(x)),
                            Some(Ok(rest)) => Some(Ok(seq![s] + rest)),
                        }));
                        let nd = done.push(s);
                        assert forall|r: Seq<VShape>| #![trigger done + (seq![s] + r)] done + (seq![s] + r) == nd + r by {
                            assert(done + (seq![s] + r) =~= nd + r);
                        }
                        done = nd;
                    }
                },
                Some(Err(e)) => {
                    proof {
                        let x = build_spec(m, cid, f as nat)->0->Err_0;
                        assert(before == Some(Err::<Seq<VShape>, Seq<char>>(x)));
                    }
                    return Some(Err(e));
                },
            }
            i = i + 1;
        }
        assert(done + Seq::<VShape>::empty() =~= done);
        let e = VElement { tag: tag.clone(), attrs, children, key: None };
        Some(Ok(VNode::Element(e)))
    } else if str_eq(t.as_str(), "text") {
        match &entry.content {
            Some(c) => Some(Ok(VNode::Text(c.clone()))),
            None => Some(Err(owned("Text VNode missing content"))),
        }
    } else if str_eq(t.as_str(), "comment") {
        match &entry.content {
            Some(c) => Some(Ok(VNode::Comment(c.clone()))),
            None => Some(Err(owned("Comment VNode missing content"))),
        }
    } else {
        Some(Err(owned("Unknown VNode type: ").concat(t.as_str())))
    }
}

/// Levels for a map of `n` entries: one for each and one more, as far as
/// `u64` counts.
pub open spec fn levels(n: nat) -> nat {
    if n < u64::MAX {
        n + 1
    } else {
        u64::MAX as nat
    }
}

/// The tree that the map describes from `root_id`, built with one level for
/// each entry and one more: enough for every description that does not lead
/// around in a circle. `None` where these levels do not suffice; where they
/// do, the result is that of `build_vtree_from_map`.
pub fn build_vtree_checked(map: &StrMap<VNodeEntry>, root_id: u32) -> (r: Option<Result<VTree, String>>)
    ensures
        ({
            let fuel = levels(map@.dom().len());
            match build_spec(map@, root_id, fuel) {
                None => r is None,
                Some(Ok(s)) => r matches Some(Ok(t)) && has_shape(t.root, s),
                Some(Err(x)) => r matches Some(Err(e)) && e@ == x,
            }
        }),
{
    let n = map.len() as u64;
    let fuel: u64 = if n < u64::MAX {
        n + 1
    } else {
        u64::MAX
    };
    match build_node_within(map, root_id, fuel) {
        None => None,
        Some(Ok(root)) => Some(Ok(VTree { root })),
        Some(Err(e)) => Some(Err(e)),
    }
}

/// The tree that a map of node entries (by decimal id) describes from
/// `root_id`: each element with its string-valued props as attributes and
/// its children by id (ids that do not read as numbers skipped); the first
/// missing node or field, or unknown type, met depth first is the error.
/// The description must not lead around in a circle from the root.
pub fn build_vtree_from_map(map: &StrMap<VNodeEntry>, root_id: u32) -> (r: Result<VTree, String>)
    requires
        exists|fuel: nat| build_spec(map@, root_id, fuel) is Some,
    ensures
        ({
            let fuel = choose|fuel: nat| build_spec(map@, root_id, fuel) is Some;
            match build_spec(map@, root_id, fuel)->0 {
                Ok(s) => r matches Ok(t) && has_shape(t.root, s),
                Err(x) => r matches Err(e) && e@ == x,
            }
        }),
{
    let ghost fuel = choose|fuel: nat| build_spec(map@, root_id, fuel) is Some;
    match build_node(map, root_id, Ghost(fuel)) {
        Ok(root) => Ok(VTree { root }),
        Err(e) => Err(e),
    }
}

/// An entry by its plain values: type, tag, content, props and children.
pub type EntryView = (
    Option<Seq<char>>,
    Option<Seq<char>>,
    Option<Seq<char>>,
    Option<Seq<(Seq<char>, Option<Seq<char>>)>>,
    Option<Seq<Option<Seq<char>>>>,
);

/// Props by their plain values.
pub open spec fn entry_props_view(p: Option<Vec<(String, Option<String>)>>) -> Option<Seq<(Seq<char>, Option<Seq<char>>)>> {
    match p {
        Some(v) => Some(v@.map_values(|x: (String, Option<String>)| (x.0@, opt_str(x.1)))),
        None => None,
    }
}

/// Children ids by their plain values.
pub open spec fn kids_view(c: Option<Vec<Option<String>>>) -> Option<Seq<Option<Seq<char>>>> {
    match c {
        Some(v) => Some(v@.map_values(|x: Option<String>| opt_str(x))),
        None => None,
    }
}

/// An entry by its plain values.
pub open spec fn entry_view(e: VNodeEntry) -> EntryView {
    (opt_str(e.node_type), opt_str(e.tag), opt_str(e.content), entry_props_view(e.props), kids_view(e.children))
}

/// The message of the error `serde_json` reports parsing the text `s` as a
/// map from strings to JSON values, or none where it parses.
pub uninterp spec fn vnode_map_error(s: Seq<char>) -> Option<Seq<char>>;

/// The entries of the map `serde_json` parses from the text `s` (as a
/// `BTreeMap` from strings to JSON values), in key order.
pub uninterp spec fn vnode_map_values(s: Seq<char>) -> Seq<(Seq<char>, serde_json::Value)>;

/// The field `key` of a JSON value as a string, where the value is an
/// object with that field and the field is a string.
pub uninterp spec fn value_str_field(v: serde_json::Value, key: Seq<char>) -> Option<Seq<char>>;

/// The entries of the object in the field `key` of a JSON value, each value
/// as its string where it is one; `None` where there is no such object.
pub uninterp spec fn value_object_field(v: serde_json::Value, key: Seq<char>) -> Option<Seq<(Seq<char>, Option<Seq<char>>)>>;

/// The items of the array in the field `key` of a JSON value, each as its
/// string where it is one; `None` where there is no such array.
pub uninterp spec fn value_array_field(v: serde_json::Value, key: Seq<char>) -> Option<Seq<Option<Seq<char>>>>;

/// Calls `serde_json::from_str` for a `BTreeMap<String, serde_json::Value>`
/// and hands its entries over in key order; the entries, or the error turned
/// into its message, depend on the text alone.
#[verifier::external_body]
fn parse_vnode_map(s: &str) -> (r: Result<Vec<(String, serde_json::Value)>, String>)
    ensures
        match r {
            Ok(v) => vnode_map_error(s@) is None && v@.map_values(|p: (String, serde_json::Value)| (p.0@, p.1))
                == vnode_map_values(s@),
            Err(m) => vnode_map_error(s@) == Some(m@),
        },
{
    serde_json::from_str::<std::collections::BTreeMap<String, serde_json::Value>>(s)
        .map(|m| m.into_iter().collect())
        .map_err(|e| e.to_string())
}

/// Calls `Value::get` and `as_str`: the field as a string.
#[verifier::external_body]
fn value_str(v: &serde_json::Value, key: &str) -> (r: Option<String>)
    ensures
        opt_str(r) == value_str_field(*v, key@),
{
    v.get(key).and_then(|x| x.as_str()).map(|s| s.to_string())
}

/// Calls `Value::get`, `as_object`, and `as_str` of each entry's value.
#[verifier::external_body]
fn value_object(v: &serde_json::Value, key: &str) -> (r: Option<Vec<(String, Option<String>)>>)
    ensures
        entry_props_view(r) == value_object_field(*v, key@),
{
    v.get(key).and_then(|x| x.as_object()).map(|o| o.iter().map(|(k, x)| (k.clone(), x.as_str().map(|s| s.to_string()))).collect())
}

/// Calls `Value::get`, `as_array`, and `as_str` of each item.
#[verifier::external_body]
fn value_array(v: &serde_json::Value, key: &str) -> (r: Option<Vec<Option<String>>>)
    ensures
        kids_view(r) == value_array_field(*v, key@),
{
    v.get(key).and_then(|x| x.as_array()).map(|a| a.iter().map(|x| x.as_str().map(|s| s.to_string())).collect())
}

/// The entry a JSON value describes: its `type`, `tag` and `content` as
/// strings, its `props` object and its `children` array.
pub open spec fn value_entry(v: serde_json::Value) -> EntryView {
    (
        value_str_field(v, "type"@),
        value_str_field(v, "tag"@),
        value_str_field(v, "content"@),
        value_object_field(v, "props"@),
        value_array_field(v, "children"@),
    )
}

/// The entry of a JSON value.
fn entry_of_value(v: &serde_json::Value) -> (e: VNodeEntry)
    ensures
        entry_view(e) == value_entry(*v),
{
    VNodeEntry {
        node_type: value_str(v, "type"),
        tag: value_str(v, "tag"),
        content: value_str(v, "content"),
        props: value_object(v, "props"),
        children: value_array(v, "children"),
    }
}

/// The values by key, a later one replacing an earlier of the same key.
pub open spec fn values_map(s: Seq<(Seq<char>, serde_json::Value)>) -> Map<Seq<char>, serde_json::Value>
    decreases s.len(),
{
    if s.len() == 0 {
        Map::empty()
    } else {
        values_map(s.drop_last()).insert(s.last().0, s.last().1)
    }
}

/// `m` holds, under each key of the parsed map, the entry its value
/// describes.
pub open spec fn map_of_values(m: StrMap<VNodeEntry>, s: Seq<(Seq<char>, serde_json::Value)>) -> bool {
    &&& m@.dom() == values_map(s).dom()
    &&& forall|k: Seq<char>| #[trigger] m@.contains_key(k) ==> entry_view(m@[k]) == value_entry(values_map(s)[k])
}

/// The node map that a JSON text describes: each key with the entry its
/// value describes; an error where the text is not a JSON object.
pub fn vnode_map_from_json(map_json: &str) -> (r: Result<StrMap<VNodeEntry>, String>)
    ensures
        match vnode_map_error(map_json@) {
            Some(m) => r matches Err(e) && e@ == "Failed to parse vnode map: "@ + m,
            None => r matches Ok(m) && map_of_values(m, vnode_map_values(map_json@)),
        },
{
    let values = match parse_vnode_map(map_json) {
        Ok(v) => v,
        Err(m) => return Err(owned("Failed to parse vnode map: ").concat(m.as_str())),
    };
    let ghost vs = values@.map_values(|p: (String, serde_json::Value)| (p.0@, p.1));
    let mut map: StrMap<VNodeEntry> = StrMap::new();
    let mut i: usize = 0;
    assert(vs.take(0) =~= Seq::<(Seq<char>, serde_json::Value)>::empty());
    assert(map@.dom() =~= values_map(vs.take(0)).dom());
    while i < values.len()
        invariant
            i <= values@.len(),
            vs == values@.map_values(|p: (String, serde_json::Value)| (p.0@, p.1)),
            map_of_values(map, vs.take(i as int)),
        decreases values@.len() - i,
    {
        let e = entry_of_value(&values[i].1);
        let ghost before = map@;
        map.insert(values[i].0.as_str(), e);
        proof {
            assert(vs.take(i + 1).drop_last() =~= vs.take(i as int));
            assert(vs.take(i + 1).last() == vs[i as int]);
            assert(vs[i as int] == (values@[i as int].0@, values@[i as int].1));
            assert(map@.dom() =~= values_map(vs.take(i + 1)).dom());
        }
        i = i + 1;
    }
    assert(vs.take(values@.len() as int) =~= vs);
    Ok(map)
}

/// The tree that a JSON node map describes from `root_id`, built as
/// `build_vtree_checked` builds it from the map's entries: `None` where the
/// description leads around in a circle from the root, so that no number of
/// levels suffices; the parse error where the text is not a JSON object.
pub fn build_vtree_from_json(map_json: &str, root_id: u32) -> (r: Option<Result<VTree, String>>)
    ensures
        match vnode_map_error(map_json@) {
            Some(m) => r matches Some(Err(e)) && e@ == "Failed to parse vnode map: "@ + m,
            None => exists|m: StrMap<VNodeEntry>|
                {
                    &&& map_of_values(m, vnode_map_values(map_json@))
                    &&& match build_spec(m@, root_id, levels(m@.dom().len())) {
                        None => r is None,
                        Some(Ok(s)) => r matches Some(Ok(t)) && has_shape(t.root, s),
                        Some(Err(x)) => r matches Some(Err(e)) && e@ == x,
                    }
                },
        },
{
    let map = match vnode_map_from_json(map_json) {
        Ok(m) => m,
        Err(e) => return Some(Err(e)),
    };
    build_vtree_checked(&map, root_id)
}

} // verus!
