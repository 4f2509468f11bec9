//! Reading an HTML document into a DOM tree.  The `html5ever` parser builds
//! its own tree; its nodes are handed over as plain items, in document
//! order, from which the DOM tree is built.
use vstd::prelude::*;
use html5ever::tendril::TendrilSink;
use std::rc::Rc;
use markup5ever_rcdom::{Node, NodeData, RcDom};
use crate::js::vue::VShape;
use crate::layout::dom::{DOMNode, DOMTree, NodeType};
use crate::text::lowercase;

verus! {

/// The kind of a node of a parsed document.
#[derive(Debug, Clone, Copy, PartialEq, Eq, Structural)]
pub enum HtmlKind {
    /// The document itself.
    Document,
    /// A `DOCTYPE`.
    Doctype,
    /// A text run.
    Text,
    /// A comment.
    Comment,
    /// An element.
    Element,
    /// A processing instruction.
    Instruction,
}

/// A node of a parsed document: its kind, the position of its parent among
/// the document's nodes, its name (an element) or text (a text run or a
/// comment), and its attributes in order (an element).
#[derive(Debug)]
pub struct HtmlItem {
    /// Kind.
    pub kind: HtmlKind,
    /// Position of the parent (past the end for the document).
    pub parent: usize,
    /// Element name, or text.
    pub text: String,
    /// Attributes, name and value.
    pub attrs: Vec<(String, String)>,
}

/// A node of the tree that the parser builds.
#[verifier::external_type_specification]
#[verifier::external_body]
pub struct ExRcDomNode(Node);

/// A node of a parsed document by its plain values.
pub type HtmlItemView = (HtmlKind, usize, Seq<char>, Seq<(Seq<char>, Seq<char>)>);

/// The attributes of a node by their views.
pub open spec fn attrs_view(a: Seq<(String, String)>) -> Seq<(Seq<char>, Seq<char>)> {
    a.map_values(|p: (String, String)| (p.0@, p.1@))
}

/// A node by its plain values.
pub open spec fn item_view(it: HtmlItem) -> HtmlItemView {
    (it.kind, it.parent, it.text@, attrs_view(it.attrs@))
}

/// The nodes by their plain values.
pub open spec fn items_view(v: Seq<HtmlItem>) -> Seq<HtmlItemView> {
    v.map_values(|it: HtmlItem| item_view(it))
}

/// Name for the nodes that `html5ever::parse_document` makes of a document
/// (into a `markup5ever_rcdom` tree), in document order, the document
/// first: each node's kind, the position of its parent (past the end for
/// the document), its element name or text, and its attributes in order.
pub uninterp spec fn html_items(html: Seq<char>) -> Seq<HtmlItemView>;

/// Name for what a `markup5ever_rcdom` node holds: its kind, its element
/// name or text, and its attributes in order.  The parsed tree is not
/// changed once built, so this is a function of the node.
pub uninterp spec fn node_data(n: Rc<Node>) -> (HtmlKind, Seq<char>, Seq<(Seq<char>, Seq<char>)>);

/// Name for the children of a `markup5ever_rcdom` node, in order.
pub uninterp spec fn node_kids(n: Rc<Node>) -> Seq<Rc<Node>>;

/// Name for the height of a node's subtree in the parsed tree: greater than
/// that of each of its children.
pub uninterp spec fn node_height(n: Rc<Node>) -> nat;

/// The nodes of the subtree of `n` in document order, `n` first with the
/// parent position `p`, its descendants numbered on from `at`.
pub open spec fn walk(n: Rc<Node>, p: int, at: int) -> Seq<(Rc<Node>, int)>
    decreases node_height(n), 1int, 0int,
{
    seq![(n, p)] + walk_kids(n, 0, at, at + 1)
}

/// The subtrees of the children of `n` from the `k`-th on, in document
/// order, under the parent position `me`, numbered from `next`.
pub open spec fn walk_kids(n: Rc<Node>, k: int, me: int, next: int) -> Seq<(Rc<Node>, int)>
    decreases node_height(n), 0int, node_kids(n).len() - k,
{
    if k < 0 || k >= node_kids(n).len() || node_height(node_kids(n)[k]) >= node_height(n) {
        Seq::empty()
    } else {
        let w = walk(node_kids(n)[k], me, next);
        w + walk_kids(n, k + 1, me, next + w.len())
    }
}

/// A walked node by its plain values.
pub open spec fn walked_view(x: (Rc<Node>, int)) -> HtmlItemView {
    let d = node_data(x.0);
    (d.0, x.1 as usize, d.1, d.2)
}

/// The items of a parsed document, read by walking its tree from the
/// document node.
pub open spec fn walk_items(doc: Rc<Node>) -> Seq<HtmlItemView> {
    walk(doc, usize::MAX as int, 0).map_values(|x: (Rc<Node>, int)| walked_view(x))
}

/// A parsed node with the position of its parent, by its plain values.
pub open spec fn node_view(x: (Rc<Node>, usize)) -> HtmlItemView {
    let d = node_data(x.0);
    (d.0, x.1, d.1, d.2)
}

/// Parsed nodes by their plain values.
pub open spec fn nodes_view(v: Seq<(Rc<Node>, usize)>) -> Seq<HtmlItemView> {
    v.map_values(|x: (Rc<Node>, usize)| node_view(x))
}

/// Positions as integers.
pub open spec fn pos_view(v: Seq<(Rc<Node>, usize)>) -> Seq<(Rc<Node>, int)> {
    v.map_values(|x: (Rc<Node>, usize)| (x.0, x.1 as int))
}

/// Parses a document with `html5ever::parse_document` into a
/// `markup5ever_rcdom` tree and returns its document node.  Claimed: the
/// tree, walked in document order and read by `node_data`, gives
/// `html_items` of the text.
#[verifier::external_body]
fn parse_document(html: &str) -> (r: Rc<Node>)
    ensures
        walk_items(r) == html_items(html@),
{
    html5ever::parse_document(RcDom::default(), Default::default()).one(html).document
}

/// The children of a `markup5ever_rcdom` node, in order.  Claimed: they are
/// `node_kids` of the node, each with a lower subtree.
#[verifier::external_body]
fn node_children(n: &Rc<Node>) -> (r: Vec<Rc<Node>>)
    ensures
        r@ == node_kids(*n),
        forall|i: int| 0 <= i < r@.len() ==> node_height(#[trigger] r@[i]) < node_height(*n),
{
    n.children.borrow().clone()
}

/// Appends the nodes of the subtree of `n` in document order, `n` first
/// with the parent position `p`.
fn walk_nodes(n: Rc<Node>, p: usize, out: &mut Vec<(Rc<Node>, usize)>)
    ensures
        pos_view(final(out)@) == pos_view(old(out)@) + walk(n, p as int, old(out)@.len() as int),
    decreases node_height(n),
{
    let me = out.len();
    let ghost total = pos_view(old(out)@) + walk(n, p as int, me as int);
    let mut kids = node_children(&n);
    let ghost ks = kids@;
    let ghost nn = n;
    let nk = kids.len();
    assert(ks.len() == nk);
    out.push((n, p));
    assert(pos_view(out@) =~= pos_view(old(out)@).push((nn, p as int)));
    assert(total =~= pos_view(out@) + walk_kids(nn, 0, me as int, out@.len() as int));
    let mut k: usize = 0;
    while kids.len() > 0
        invariant
            k + kids@.len() == ks.len(),
            ks.len() <= usize::MAX,
            nn == n,
            kids@ == ks.skip(k as int),
            ks == node_kids(nn),
            forall|i: int| 0 <= i < ks.len() ==> node_height(#[trigger] ks[i]) < node_height(nn),
            total == pos_view(out@) + walk_kids(nn, k as int, me as int, out@.len() as int),
            me < out@.len(),
        decreases kids@.len(),
    {
        let c = kids.remove(0);
        assert(c == ks[k as int]);
        assert(kids@ =~= ks.skip(k + 1));
        let ghost before = pos_view(out@);
        let ghost w = walk(c, me as int, out@.len() as int);
        assert(node_height(c) < node_height(nn));
        walk_nodes(c, me, out);
        proof {
            assert(node_height(ks[k as int]) < node_height(nn));
            assert(walk_kids(nn, k as int, me as int, before.len() as int) == w + walk_kids(
                nn,
                k + 1,
                me as int,
                (before.len() + w.len()) as int,
            ));
            assert(pos_view(out@).len() == out@.len());
            assert(before + (w + walk_kids(nn, k + 1, me as int, (before.len() + w.len()) as int)) =~= pos_view(out@)
                + walk_kids(nn, k + 1, me as int, out@.len() as int));
        }
        k = k + 1;
    }
    assert(walk_kids(nn, k as int, me as int, out@.len() as int) =~= Seq::<(Rc<Node>, int)>::empty());
    assert(total =~= pos_view(out@));
}

/// The kind, the element name or text, and the attributes of a
/// `markup5ever_rcdom` node, read from its `NodeData`.  Claimed: they are
/// `node_data` of the node.
#[verifier::external_body]
fn node_item(n: &Rc<Node>) -> (r: (HtmlKind, String, Vec<(String, String)>))
    ensures
        (r.0, r.1@, attrs_view(r.2@)) == node_data(*n),
{
    match &n.data {
        NodeData::Element { name, attrs, .. } => (HtmlKind::Element, name.local.to_string(), attrs.borrow().iter().map(|a| (a.name.local.to_string(), a.value.to_string())).collect()),
        NodeData::Text { contents } => (HtmlKind::Text, contents.borrow().to_string(), vec![]),
        NodeData::Comment { contents } => (HtmlKind::Comment, contents.to_string(), vec![]),
        NodeData::Document => (HtmlKind::Document, String::new(), vec![]),
        NodeData::Doctype { .. } => (HtmlKind::Doctype, String::new(), vec![]),
        NodeData::ProcessingInstruction { .. } => (HtmlKind::Instruction, String::new(), vec![]),
    }
}

/// The attributes set one after the other, a later one replacing an
/// earlier one of the same name.
pub open spec fn attrs_map(a: Seq<(Seq<char>, Seq<char>)>) -> Map<Seq<char>, Seq<char>>
    decreases a.len(),
{
    if a.len() == 0 {
        Map::empty()
    } else {
        attrs_map(a.drop_last()).insert(a.last().0, a.last().1)
    }
}

/// The first child of node `i` at or after position `j`.
pub open spec fn first_child(items: Seq<HtmlItemView>, i: int, j: int) -> Option<int>
    decreases items.len() - j,
{
    if j < 0 || j >= items.len() {
        None
    } else if items[j].1 == i {
        Some(j)
    } else {
        first_child(items, i, j + 1)
    }
}

/// The DOM shape of node `i`: the document takes the shape of its first
/// child (an empty `html` element without one), an element keeps its name
/// in lower case, its attributes and its children (those after it), text
/// and comments their text, a `DOCTYPE` becomes a `!doctype` element and a
/// processing instruction an empty text.
pub open spec fn item_shape(items: Seq<HtmlItemView>, i: int) -> VShape
    decreases items.len() - i, 1int, 0int,
{
    if i < 0 || i >= items.len() {
        VShape::Element(lowercase("html"@), Map::empty(), seq![])
    } else {
        let it = items[i];
        match it.0 {
            HtmlKind::Document => match first_child(items, i, i + 1) {
                Some(j) => if i < j < items.len() {
                    item_shape(items, j)
                } else {
                    VShape::Element(lowercase("html"@), Map::empty(), seq![])
                },
                None => VShape::Element(lowercase("html"@), Map::empty(), seq![]),
            },
            HtmlKind::Element => VShape::Element(lowercase(it.2), attrs_map(it.3), kid_shapes(items, i, i + 1)),
            HtmlKind::Text => VShape::Text(it.2),
            HtmlKind::Comment => VShape::Comment(it.2),
            HtmlKind::Doctype => VShape::Element(lowercase("!doctype"@), Map::empty(), seq![]),
            HtmlKind::Instruction => VShape::Text(seq![]),
        }
    }
}

/// The shapes of the children of node `i` at or after position `j`.
pub open spec fn kid_shapes(items: Seq<HtmlItemView>, i: int, j: int) -> Seq<VShape>
    decreases items.len() - i, 0int, items.len() - j,
{
    if i < 0 || j <= i || j >= items.len() {
        seq![]
    } else {
        let rest = kid_shapes(items, i, j + 1);
        if items[j].1 == i {
            seq![item_shape(items, j)] + rest
        } else {
            rest
        }
    }
}

/// The DOM shape of a parsed document: that of its first node.
pub open spec fn document_shape(items: Seq<HtmlItemView>) -> VShape {
    item_shape(items, 0)
}

/// `n` has the shape `s`: kind, text, attributes and children, whatever
/// the identifiers.
pub open spec fn dom_has_shape(n: DOMNode, s: VShape) -> bool
    decreases s,
{
    match s {
        VShape::Element(t, a, ks) => n.node_type matches NodeType::Element(x) && x@ == t
            && n.attributes.sview() == a && n.children@.len() == ks.len() && forall|i: int|
            0 <= i < ks.len() ==> dom_has_shape(#[trigger] n.children@[i], ks[i]),
        VShape::Text(c) => n.node_type matches NodeType::Text(x) && x@ == c && n.children@.len() == 0,
        VShape::Comment(c) => n.node_type matches NodeType::Comment(x) && x@ == c && n.children@.len() == 0,
    }
}

/// A node keeps its shape under a new parent.
proof fn lemma_shape_with_parent(n: DOMNode, s: VShape, pid: u64)
    requires
        dom_has_shape(n, s),
    ensures
        dom_has_shape(crate::layout::dom::with_parent(n, pid), s),
{
}

/// An empty `html` element.
fn empty_html() -> (n: DOMNode)
    ensures
        dom_has_shape(n, VShape::Element(lowercase("html"@), Map::empty(), seq![])),
{
    let n = DOMNode::new_element("html");
    assert(n.attributes.sview() =~= Map::<Seq<char>, Seq<char>>::empty());
    n
}

/// The DOM node of node `i` of a parsed document.
fn build_node(items: &Vec<HtmlItem>, i: usize) -> (n: DOMNode)
    requires
        i < items@.len(),
    ensures
        dom_has_shape(n, item_shape(items_view(items@), i as int)),
    decreases items@.len() - i, 1int,
{
    let ghost iv = items_view(items@);
    let len = items.len();
    let it = &items[i];
    assert(iv[i as int] == item_view(*it));
    match it.kind {
        HtmlKind::Document => {
            assert(iv[i as int].0 == HtmlKind::Document);
            assert(iv.len() == items@.len());
            let mut j: usize = i + 1;
            while j < items.len()
                invariant
                    i < j <= items@.len(),
                    iv == items_view(items@),
                    first_child(iv, i as int, i + 1) == first_child(iv, i as int, j as int),
                    iv[i as int].0 == HtmlKind::Document,
                    iv.len() == items@.len(),
                decreases items@.len() - j,
            {
                assert(iv[j as int] == item_view(items@[j as int]));
                if items[j].parent == i {
                    assert(iv[i as int].0 == HtmlKind::Document);
                    assert(first_child(iv, i as int, j as int) == Some(j as int));
                    let n = build_node(items, j);
                    assert(item_shape(iv, i as int) == item_shape(iv, j as int));
                    return n;
                }
                j = j + 1;
            }
            assert(first_child(iv, i as int, j as int) is None);
            assert(item_shape(iv, i as int) == VShape::Element(lowercase("html"@), Map::empty(), seq![]));
            let n = empty_html();
            assert(dom_has_shape(n, item_shape(iv, i as int)));
            n
        },
        HtmlKind::Element => {
            let mut node = DOMNode::new_element(it.text.as_str());
            let mut k: usize = 0;
            while k < it.attrs.len()
                invariant
                    k <= it.attrs@.len(),
                    node.node_type matches NodeType::Element(x) && x@ == lowercase(it.text@),
                    node.children@.len() == 0,
                    node.attributes.sview() == attrs_map(attrs_view(it.attrs@).take(k as int)),
                decreases it.attrs@.len() - k,
            {
                let ghost av = attrs_view(it.attrs@);
                assert(av.take(k + 1).drop_last() =~= av.take(k as int));
                assert(av.take(k + 1).last() == (it.attrs@[k as int].0@, it.attrs@[k as int].1@));
                node.set_attribute(it.attrs[k].0.as_str(), it.attrs[k].1.as_str());
                k = k + 1;
            }
            assert(attrs_view(it.attrs@).take(it.attrs@.len() as int) =~= attrs_view(it.attrs@));
            let ghost all = kid_shapes(iv, i as int, i + 1);
            let ghost mut done: Seq<VShape> = seq![];
            let mut j: usize = i + 1;
            while j < items.len()
                invariant
                    i < j <= items@.len(),
                    iv == items_view(items@),
                    all == kid_shapes(iv, i as int, i + 1),
                    all == done + kid_shapes(iv, i as int, j as int),
                    node.node_type matches NodeType::Element(x) && x@ == lowercase(iv[i as int].2),
                    node.attributes.sview() == attrs_map(iv[i as int].3),
                    node.children@.len() == done.len(),
                    forall|m: int| 0 <= m < done.len() ==> dom_has_shape(#[trigger] node.children@[m], done[m]),
                decreases items@.len() - j,
            {
                assert(iv[j as int] == item_view(items@[j as int]));
                if items[j].parent == i {
                    let child = build_node(items, j);
                    let ghost s = item_shape(iv, j as int);
                    let ghost before = node.children@;
                    proof {
                        lemma_shape_with_parent(child, s, node.id);
                    }
                    node.append_child(child);
                    proof {
                        assert(node.children@[done.len() as int] == crate::layout::dom::with_parent(child, node.id));
                        assert forall|m: int| 0 <= m < done.len() + 1 implies dom_has_shape(
                            #[trigger] node.children@[m],
                            done.push(s)[m],
                        ) by {
                            if m < done.len() {
                                assert(node.children@[m] == before[m]);
                            }
                        }
                        assert(kid_shapes(iv, i as int, j as int) == seq![s] + kid_shapes(iv, i as int, j + 1));
                        done = done.push(s);
                        assert(all =~= done + kid_shapes(iv, i as int, j + 1));
                    }
                } else {
                    assert(kid_shapes(iv, i as int, j as int) == kid_shapes(iv, i as int, j + 1));
                }
                j = j + 1;
            }
            assert(done =~= all);
            assert(dom_has_shape(node, item_shape(iv, i as int)));
            node
        },
        HtmlKind::Text => {
            let n = DOMNode::new_text(it.text.as_str());
            assert(dom_has_shape(n, item_shape(iv, i as int)));
            n
        },
        HtmlKind::Comment => {
            let n = DOMNode::new_comment(it.text.as_str());
            assert(dom_has_shape(n, item_shape(iv, i as int)));
            n
        },
        HtmlKind::Doctype => {
            let n = DOMNode::new_element("!doctype");
            assert(n.attributes.sview() =~= Map::<Seq<char>, Seq<char>>::empty());
            assert(dom_has_shape(n, item_shape(iv, i as int)));
            n
        },
        HtmlKind::Instruction => {
            let n = DOMNode::new_text("");
            proof {
                reveal_strlit("");
                assert(""@ =~= Seq::<char>::empty());
            }
            assert(dom_has_shape(n, item_shape(iv, i as int)));
            n
        },
    }
}

/// The DOM tree of parsed document nodes: that of the first node (the
/// document), an empty `html` element where there is none.
pub fn dom_from_items(items: &Vec<HtmlItem>) -> (t: DOMTree)
    ensures
        dom_has_shape(t.root, document_shape(items_view(items@))),
{
    if items.len() == 0 {
        DOMTree::new(empty_html())
    } else {
        DOMTree::new(build_node(items, 0))
    }
}

/// The DOM tree of an HTML document, as `html5ever` parses it: built by
/// `dom_from_items` from the nodes the parser makes.
pub fn parse_html(html: &str) -> (t: DOMTree)
    ensures
        dom_has_shape(t.root, document_shape(html_items(html@))),
{
    let doc = parse_document(html);
    let ghost d = doc;
    let mut nodes: Vec<(Rc<Node>, usize)> = Vec::new();
    walk_nodes(doc, usize::MAX, &mut nodes);
    assert(pos_view(Seq::<(Rc<Node>, usize)>::empty()) =~= Seq::empty());
    assert(nodes_view(nodes@) =~= walk_items(d)) by {
        assert(pos_view(nodes@) =~= walk(d, usize::MAX as int, 0));
        assert forall|i: int| 0 <= i < nodes@.len() implies #[trigger] nodes_view(nodes@)[i] == walk_items(d)[i] by {
            assert(pos_view(nodes@)[i] == walk(d, usize::MAX as int, 0)[i]);
        }
    }
    let mut items: Vec<HtmlItem> = Vec::new();
    let mut k: usize = 0;
    while k < nodes.len()
        invariant
            k <= nodes@.len(),
            items_view(items@) == nodes_view(nodes@).take(k as int),
        decreases nodes@.len() - k,
    {
        let (kind, text, attrs) = node_item(&nodes[k].0);
        let ghost d = node_data(nodes@[k as int].0);
        assert(kind == d.0 && text@ == d.1 && attrs_view(attrs@) == d.2);
        let ghost before = items@;
        let it = HtmlItem { kind, parent: nodes[k].1, text, attrs };
        assert(item_view(it) == node_view(nodes@[k as int]));
        items.push(it);
        assert(items@ == before.push(it));
        assert(items_view(items@) =~= items_view(before).push(item_view(it)));
        assert(nodes_view(nodes@).take(k + 1) =~= nodes_view(nodes@).take(k as int).push(node_view(nodes@[k as int])));
        k = k + 1;
    }
    assert(nodes_view(nodes@).take(nodes@.len() as int) =~= nodes_view(nodes@));
    dom_from_items(&items)
}

} // verus!
