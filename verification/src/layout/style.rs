//! Computed styles: property maps, cascade and inheritance.
use vstd::prelude::*;
use crate::strmap::{StrMap, distinct_keys, map_of, lemma_map_of_dom};
use crate::layout::dom::{DOMNode, NodeType, node_matches, QueryKind};
use crate::layout::css::{Selector, SelectorType, Stylesheet, CSSRule, Declaration};
use crate::text::{chars_of, sub_chars, has_word, seq_eq, words};

verus! {

/// Resolved style properties of a node.
#[derive(Debug, Clone)]
pub struct ComputedStyles {
    properties: StrMap<String>,
}

impl ComputedStyles {
    /// Property name to value.
    pub closed spec fn view(&self) -> Map<Seq<char>, Seq<char>> {
        self.properties.sview()
    }

    /// No properties.
    pub fn new() -> (r: Self)
        ensures
            r.view() == Map::<Seq<char>, Seq<char>>::empty(),
    {
        let r = ComputedStyles { properties: StrMap::new() };
        assert(r.view() =~= Map::<Seq<char>, Seq<char>>::empty());
        r
    }

    /// Sets one property.
    pub fn set(&mut self, property: &str, value: &str)
        ensures
            final(self).view() == old(self).view().insert(property@, value@),
    {
        self.properties.set_str(property, value);
    }

    /// Value of one property.
    pub fn get(&self, property: &str) -> (r: Option<&String>)
        ensures
            match r {
                Some(v) => self.view().dom().contains(property@) && v@ == self.view()[property@],
                None => !self.view().dom().contains(property@),
            },
    {
        self.properties.get_str(property)
    }

    /// All properties.
    pub fn properties(&self) -> (r: &StrMap<String>)
        ensures
            r.sview() == self.view(),
    {
        &self.properties
    }

    /// Adds every property of `other` that is not set here (lower priority).
    pub fn merge(&mut self, other: &ComputedStyles)
        ensures
            final(self).view() == other.view().union_prefer_right(old(self).view()),
    {
        let ghost e = other.properties.entry_seq();
        proof {
            use_type_invariant(&other.properties);
            other.properties.lemma_view();
        }
        let n = other.properties.len();
        let mut i: usize = 0;
        while i < n
            invariant
                n == e.len(),
                i <= n,
                e == other.properties.entry_seq(),
                distinct_keys(e),
                other.properties@ == map_of(e),
                self.view() == map_of(e.take(i as int)).map_values(|v: String| v@).union_prefer_right(
                    old(self).view(),
                ),
            decreases n - i,
        {
            let k = other.properties.key_at(i);
            let v = other.properties.value_at(i);
            proof {
                assert(e.take(i + 1).drop_last() =~= e.take(i as int));
                lemma_map_of_dom(e.take(i as int), e[i as int].0@);
                if map_of(e.take(i as int)).dom().contains(e[i as int].0@) {
                    let j = choose|j: int| 0 <= j < e.take(i as int).len() && e.take(i as int)[j].0@ == e[i as int].0@;
                    assert(e[j].0@ == e[i as int].0@);
                }
            }
            if self.properties.get_str(k.as_str()).is_none() {
                self.set(k.as_str(), v.as_str());
                assert(self.view() =~= map_of(e.take(i + 1)).map_values(|v: String| v@).union_prefer_right(
                    old(self).view(),
                ));
            } else {
                assert(self.view() =~= map_of(e.take(i + 1)).map_values(|v: String| v@).union_prefer_right(
                    old(self).view(),
                ));
            }
            i = i + 1;
        }
        assert(e.take(n as int) =~= e);
        assert(other.view() =~= map_of(e).map_values(|v: String| v@));
    }
}

/// Selector text without its leading `#` or `.`.
pub open spec fn sel_key(sel: Selector) -> Seq<char> {
    sel.text@.drop_first()
}

/// `node` matches `sel`: by `id` for an identifier selector, by class for a
/// class selector, by tag name otherwise (the key is the selector text).
pub open spec fn matches_spec(node: DOMNode, sel: Selector) -> bool {
    if sel.selector_type is Id {
        node_matches(node, QueryKind::ById, sel_key(sel))
    } else if sel.selector_type is Class {
        node_matches(node, QueryKind::ByClass, sel_key(sel))
    } else {
        node_matches(node, QueryKind::ByTag, sel.text@)
    }
}

/// A selector whose text can be cut after its first character.
pub open spec fn selector_ok(sel: Selector) -> bool {
    (sel.selector_type is Id || sel.selector_type is Class) ==> sel.text@.len() > 0 && (sel.text@[0] as u32) < 128
}

/// Every selector of a style sheet can be matched.
pub open spec fn sheet_ok(sheet: Stylesheet) -> bool {
    forall|i: int| 0 <= i < sheet.rules@.len() ==> selector_ok(#[trigger] sheet.rules@[i].selector)
}

/// Whether `node` matches `selector`.
pub fn matches_selector(node: &DOMNode, selector: &Selector) -> (b: bool)
    requires
        selector_ok(*selector),
    ensures
        b == matches_spec(*node, *selector),
{
    let t = chars_of(selector.text.as_str());
    if selector.is_id() {
        let key = sub_chars(&t, 1, t.len());
        assert(key@ =~= t@.drop_first());
        match node.id_attr() {
            Some(v) => {
                let vc = chars_of(v.as_str());
                seq_eq(&vc, &key)
            },
            None => false,
        }
    } else if selector.is_class() {
        let key = sub_chars(&t, 1, t.len());
        assert(key@ =~= t@.drop_first());
        match node.class() {
            Some(v) => {
                let vc = chars_of(v.as_str());
                has_word(&vc, &key)
            },
            None => false,
        }
    } else {
        match node.tag_name() {
            Some(tag) => {
                let tc = chars_of(tag);
                seq_eq(&tc, &t)
            },
            None => false,
        }
    }
}

/// Specificity `(ids, classes, tags)` of a simple selector.
pub open spec fn specificity_spec(sel: Selector) -> (u32, u32, u32) {
    if sel.selector_type is Id {
        (1, 0, 0)
    } else if sel.selector_type is Class {
        (0, 1, 0)
    } else {
        (0, 0, 1)
    }
}

/// Specificity of a selector: identifier over class over tag.
pub fn selector_specificity(selector: &Selector) -> (r: (u32, u32, u32))
    ensures
        r == specificity_spec(*selector),
{
    if selector.is_id() {
        (1, 0, 0)
    } else if selector.is_class() {
        (0, 1, 0)
    } else {
        (0, 0, 1)
    }
}

/// Cascade tier of a selector: 0 for tags and the like, 1 for classes, 2 for identifiers.
pub open spec fn tier(sel: Selector) -> int {
    if sel.selector_type is Id {
        2
    } else if sel.selector_type is Class {
        1
    } else {
        0
    }
}

/// `m` with a rule's declarations applied in order.
pub open spec fn apply_decls(m: Map<Seq<char>, Seq<char>>, d: Seq<Declaration>) -> Map<Seq<char>, Seq<char>>
    decreases d.len(),
{
    if d.len() == 0 {
        m
    } else {
        apply_decls(m, d.drop_last()).insert(d.last().property@, d.last().value@)
    }
}

/// `m` with the matching rules of tier `t` among the first `k` applied in order.
pub open spec fn cascade(m: Map<Seq<char>, Seq<char>>, node: DOMNode, rules: Seq<CSSRule>, t: int, k: int) -> Map<Seq<char>, Seq<char>>
    decreases k,
{
    if k <= 0 || k > rules.len() {
        m
    } else {
        let prev = cascade(m, node, rules, t, k - 1);
        if tier(rules[k - 1].selector) == t && matches_spec(node, rules[k - 1].selector) {
            apply_decls(prev, rules[k - 1].declarations@)
        } else {
            prev
        }
    }
}

/// Styles of `node`: inherited values, then matching rules from lowest to
/// highest specificity, in source order within one specificity.
pub open spec fn styles_spec(node: DOMNode, sheet: Stylesheet, parent: Option<Map<Seq<char>, Seq<char>>>) -> Map<Seq<char>, Seq<char>> {
    let base = match parent {
        Some(p) => p,
        None => Map::empty(),
    };
    let n = sheet.rules@.len() as int;
    cascade(cascade(cascade(base, node, sheet.rules@, 0, n), node, sheet.rules@, 1, n), node, sheet.rules@, 2, n)
}

/// The value the last declaration of `p` in `d` gives it, if any.
pub open spec fn last_decl(d: Seq<Declaration>, p: Seq<char>) -> Option<Seq<char>>
    decreases d.len(),
{
    if d.len() == 0 {
        None
    } else if d.last().property@ == p {
        Some(d.last().value@)
    } else {
        last_decl(d.drop_last(), p)
    }
}

/// `a` and `b` agree on the property `p`: both lack it, or both give it
/// the same value.
pub open spec fn same_at(a: Map<Seq<char>, Seq<char>>, b: Map<Seq<char>, Seq<char>>, p: Seq<char>) -> bool {
    &&& a.contains_key(p) == b.contains_key(p)
    &&& a.contains_key(p) ==> a[p] == b[p]
}

/// Rule `j` of `rules` matches `node`, is of tier `t` and declares `p`.
pub open spec fn sets_at(node: DOMNode, rules: Seq<CSSRule>, t: int, j: int, p: Seq<char>) -> bool {
    &&& tier(rules[j].selector) == t
    &&& matches_spec(node, rules[j].selector)
    &&& last_decl(rules[j].declarations@, p) is Some
}

/// Declarations set `p` to its last declared value, and leave it alone
/// where they do not declare it.
proof fn lemma_apply_decls_at(m: Map<Seq<char>, Seq<char>>, d: Seq<Declaration>, p: Seq<char>)
    ensures
        match last_decl(d, p) {
            Some(v) => apply_decls(m, d).contains_key(p) && apply_decls(m, d)[p] == v,
            None => same_at(apply_decls(m, d), m, p),
        },
    decreases d.len(),
{
    if d.len() > 0 {
        lemma_apply_decls_at(m, d.drop_last(), p);
    }
}

/// Rules that do not set `p` leave it as it was.
proof fn lemma_cascade_untouched(m: Map<Seq<char>, Seq<char>>, node: DOMNode, rules: Seq<CSSRule>, t: int, k: int, p: Seq<char>)
    requires
        k <= rules.len(),
        forall|j: int| 0 <= j < k ==> !#[trigger] sets_at(node, rules, t, j, p),
    ensures
        same_at(cascade(m, node, rules, t, k), m, p),
    decreases k,
{
    if k > 0 {
        lemma_cascade_untouched(m, node, rules, t, k - 1, p);
        assert(!sets_at(node, rules, t, k - 1, p));
        lemma_apply_decls_at(cascade(m, node, rules, t, k - 1), rules[k - 1].declarations@, p);
    }
}

/// The last rule of a tier that sets `p` gives its value.
proof fn lemma_cascade_last(
    m: Map<Seq<char>, Seq<char>>,
    node: DOMNode,
    rules: Seq<CSSRule>,
    t: int,
    k: int,
    i: int,
    p: Seq<char>,
)
    requires
        0 <= i < k <= rules.len(),
        sets_at(node, rules, t, i, p),
        forall|j: int| i < j < k ==> !#[trigger] sets_at(node, rules, t, j, p),
    ensures
        cascade(m, node, rules, t, k).contains_key(p),
        cascade(m, node, rules, t, k)[p] == last_decl(rules[i].declarations@, p)->0,
    decreases k,
{
    if k - 1 > i {
        lemma_cascade_last(m, node, rules, t, k - 1, i, p);
        assert(!sets_at(node, rules, t, k - 1, p));
        lemma_apply_decls_at(cascade(m, node, rules, t, k - 1), rules[k - 1].declarations@, p);
    } else {
        lemma_apply_decls_at(cascade(m, node, rules, t, k - 1), rules[k - 1].declarations@, p);
    }
}

/// An identifier rule overrides class and tag rules, wherever they stand:
/// when a rule with an identifier selector matches the node and declares
/// `p`, and no later such rule declares it, the node's `p` is that rule's
/// value.
pub proof fn lemma_id_rule_wins(
    node: DOMNode,
    sheet: Stylesheet,
    parent: Option<Map<Seq<char>, Seq<char>>>,
    i: int,
    p: Seq<char>,
)
    requires
        0 <= i < sheet.rules@.len(),
        sheet.rules@[i].selector.selector_type is Id,
        matches_spec(node, sheet.rules@[i].selector),
        last_decl(sheet.rules@[i].declarations@, p) is Some,
        forall|j: int|
            i < j < sheet.rules@.len() && (#[trigger] sheet.rules@[j]).selector.selector_type is Id
                && matches_spec(node, sheet.rules@[j].selector) ==> last_decl(sheet.rules@[j].declarations@, p) is None,
    ensures
        styles_spec(node, sheet, parent).contains_key(p),
        styles_spec(node, sheet, parent)[p] == last_decl(sheet.rules@[i].declarations@, p)->0,
{
    let rules = sheet.rules@;
    let n = rules.len() as int;
    let base = match parent {
        Some(q) => q,
        None => Map::empty(),
    };
    let c1 = cascade(cascade(base, node, rules, 0, n), node, rules, 1, n);
    assert forall|j: int| i < j < n implies !#[trigger] sets_at(node, rules, 2, j, p) by {
        if tier(rules[j].selector) == 2 {
            assert(rules[j].selector.selector_type is Id);
        }
    }
    lemma_cascade_last(c1, node, rules, 2, n, i, p);
}

/// A class rule overrides tag rules, wherever they stand: when a rule with a
/// class selector matches the node and declares `p`, no later such rule
/// declares it, and no matching identifier rule declares it, the node's `p`
/// is that rule's value.
pub proof fn lemma_class_rule_wins(
    node: DOMNode,
    sheet: Stylesheet,
    parent: Option<Map<Seq<char>, Seq<char>>>,
    i: int,
    p: Seq<char>,
)
    requires
        0 <= i < sheet.rules@.len(),
        sheet.rules@[i].selector.selector_type is Class,
        matches_spec(node, sheet.rules@[i].selector),
        last_decl(sheet.rules@[i].declarations@, p) is Some,
        forall|j: int|
            i < j < sheet.rules@.len() && (#[trigger] sheet.rules@[j]).selector.selector_type is Class
                && matches_spec(node, sheet.rules@[j].selector) ==> last_decl(sheet.rules@[j].declarations@, p) is None,
        forall|j: int|
            0 <= j < sheet.rules@.len() && (#[trigger] sheet.rules@[j]).selector.selector_type is Id
                && matches_spec(node, sheet.rules@[j].selector) ==> last_decl(sheet.rules@[j].declarations@, p) is None,
    ensures
        styles_spec(node, sheet, parent).contains_key(p),
        styles_spec(node, sheet, parent)[p] == last_decl(sheet.rules@[i].declarations@, p)->0,
{
    let rules = sheet.rules@;
    let n = rules.len() as int;
    let base = match parent {
        Some(q) => q,
        None => Map::empty(),
    };
    let c0 = cascade(base, node, rules, 0, n);
    let c1 = cascade(c0, node, rules, 1, n);
    assert forall|j: int| i < j < n implies !#[trigger] sets_at(node, rules, 1, j, p) by {
        if tier(rules[j].selector) == 1 {
            assert(rules[j].selector.selector_type is Class);
        }
    }
    lemma_cascade_last(c0, node, rules, 1, n, i, p);
    assert forall|j: int| 0 <= j < n implies !#[trigger] sets_at(node, rules, 2, j, p) by {
        if tier(rules[j].selector) == 2 {
            assert(rules[j].selector.selector_type is Id);
        }
    }
    lemma_cascade_untouched(c1, node, rules, 2, n, p);
}

/// Any other matching rule overrides the inherited value: when a rule whose
/// selector is neither an identifier nor a class matches the node and
/// declares `p`, no later such rule declares it, and no matching class or
/// identifier rule declares it, the node's `p` is that rule's value.
pub proof fn lemma_tag_rule_wins(
    node: DOMNode,
    sheet: Stylesheet,
    parent: Option<Map<Seq<char>, Seq<char>>>,
    i: int,
    p: Seq<char>,
)
    requires
        0 <= i < sheet.rules@.len(),
        !(sheet.rules@[i].selector.selector_type is Id),
        !(sheet.rules@[i].selector.selector_type is Class),
        matches_spec(node, sheet.rules@[i].selector),
        last_decl(sheet.rules@[i].declarations@, p) is Some,
        forall|j: int|
            i < j < sheet.rules@.len() && !((#[trigger] sheet.rules@[j]).selector.selector_type is Id)
                && !(sheet.rules@[j].selector.selector_type is Class) && matches_spec(node, sheet.rules@[j].selector)
                ==> last_decl(sheet.rules@[j].declarations@, p) is None,
        forall|j: int|
            0 <= j < sheet.rules@.len() && ((#[trigger] sheet.rules@[j]).selector.selector_type is Id
                || sheet.rules@[j].selector.selector_type is Class) && matches_spec(node, sheet.rules@[j].selector)
                ==> last_decl(sheet.rules@[j].declarations@, p) is None,
    ensures
        styles_spec(node, sheet, parent).contains_key(p),
        styles_spec(node, sheet, parent)[p] == last_decl(sheet.rules@[i].declarations@, p)->0,
{
    let rules = sheet.rules@;
    let n = rules.len() as int;
    let base = match parent {
        Some(q) => q,
        None => Map::empty(),
    };
    let c0 = cascade(base, node, rules, 0, n);
    let c1 = cascade(c0, node, rules, 1, n);
    assert forall|j: int| i < j < n implies !#[trigger] sets_at(node, rules, 0, j, p) by {
        if tier(rules[j].selector) == 0 {
            assert(!(rules[j].selector.selector_type is Id) && !(rules[j].selector.selector_type is Class));
        }
    }
    lemma_cascade_last(base, node, rules, 0, n, i, p);
    assert forall|t: int, j: int| 0 <= j < n && (t == 1 || t == 2) implies !#[trigger] sets_at(node, rules, t, j, p) by {
        if tier(rules[j].selector) == t {
            assert(rules[j].selector.selector_type is Id || rules[j].selector.selector_type is Class);
        }
    }
    lemma_cascade_untouched(c0, node, rules, 1, n, p);
    lemma_cascade_untouched(c1, node, rules, 2, n, p);
}

/// A property that no matching rule declares keeps the inherited value
/// (none without a parent).
pub proof fn lemma_undeclared_is_inherited(
    node: DOMNode,
    sheet: Stylesheet,
    parent: Option<Map<Seq<char>, Seq<char>>>,
    p: Seq<char>,
)
    requires
        forall|j: int|
            0 <= j < sheet.rules@.len() && matches_spec(node, (#[trigger] sheet.rules@[j]).selector)
                ==> last_decl(sheet.rules@[j].declarations@, p) is None,
    ensures
        same_at(styles_spec(node, sheet, parent), match parent {
            Some(q) => q,
            None => Map::empty(),
        }, p),
{
    let rules = sheet.rules@;
    let n = rules.len() as int;
    let base = match parent {
        Some(q) => q,
        None => Map::empty(),
    };
    assert forall|t: int, j: int| 0 <= j < n implies !#[trigger] sets_at(node, rules, t, j, p) by {
        assert(matches_spec(node, rules[j].selector) ==> last_decl(rules[j].declarations@, p) is None);
    }
    let c0 = cascade(base, node, rules, 0, n);
    let c1 = cascade(c0, node, rules, 1, n);
    lemma_cascade_untouched(base, node, rules, 0, n, p);
    lemma_cascade_untouched(c0, node, rules, 1, n, p);
    lemma_cascade_untouched(c1, node, rules, 2, n, p);
}

/// Applies a rule's declarations in order.
fn apply_rule(computed: &mut ComputedStyles, rule: &CSSRule)
    ensures
        final(computed).view() == apply_decls(old(computed).view(), rule.declarations@),
{
    let mut i: usize = 0;
    while i < rule.declarations.len()
        invariant
            i <= rule.declarations@.len(),
            computed.view() == apply_decls(old(computed).view(), rule.declarations@.take(i as int)),
        decreases rule.declarations.len() - i,
    {
        assert(rule.declarations@.take(i + 1).drop_last() =~= rule.declarations@.take(i as int));
        let d = &rule.declarations[i];
        computed.set(d.property.as_str(), d.value.as_str());
        i = i + 1;
    }
    assert(rule.declarations@.take(i as int) =~= rule.declarations@);
}

/// Applies the matching rules of one tier in order.
fn apply_tier(computed: &mut ComputedStyles, node: &DOMNode, stylesheet: &Stylesheet, t: u8)
    requires
        sheet_ok(*stylesheet),
        t <= 2,
    ensures
        final(computed).view() == cascade(old(computed).view(), *node, stylesheet.rules@, t as int, stylesheet.rules@.len() as int),
{
    let mut i: usize = 0;
    while i < stylesheet.rules.len()
        invariant
            i <= stylesheet.rules@.len(),
            sheet_ok(*stylesheet),
            t <= 2,
            computed.view() == cascade(old(computed).view(), *node, stylesheet.rules@, t as int, i as int),
        decreases stylesheet.rules.len() - i,
    {
        let rule = &stylesheet.rules[i];
        let rt: u8 = if rule.selector.is_id() {
            2
        } else if rule.selector.is_class() {
            1
        } else {
            0
        };
        assert(selector_ok(stylesheet.rules@[i as int].selector));
        if rt == t && matches_selector(node, &rule.selector) {
            apply_rule(computed, rule);
        }
        i = i + 1;
    }
}

/// Styles of one node under a style sheet and optional inherited styles.
pub fn compute_styles(node: &DOMNode, stylesheet: &Stylesheet, parent_styles: Option<&ComputedStyles>) -> (r: ComputedStyles)
    requires
        sheet_ok(*stylesheet),
    ensures
        r.view() == styles_spec(*node, *stylesheet, match parent_styles {
            Some(p) => Some(p.view()),
            None => None,
        }),
{
    let mut computed = ComputedStyles::new();
    if let Some(parent) = parent_styles {
        computed.merge(parent);
        assert(computed.view() =~= parent.view());
    }
    apply_tier(&mut computed, node, stylesheet, 0);
    apply_tier(&mut computed, node, stylesheet, 1);
    apply_tier(&mut computed, node, stylesheet, 2);
    computed
}

/// Styles of a node; every descendant is computed too, inheriting from its
/// parent, and the node's own styles are returned.
pub fn compute_tree_styles(node: &mut DOMNode, stylesheet: &Stylesheet, parent_styles: Option<&ComputedStyles>) -> (r: ComputedStyles)
    requires
        sheet_ok(*stylesheet),
    ensures
        r.view() == styles_spec(*old(node), *stylesheet, match parent_styles {
            Some(p) => Some(p.view()),
            None => None,
        }),
        *final(node) == *old(node),
{
    let computed = compute_styles(node, stylesheet, parent_styles);
    let mut i: usize = 0;
    while i < node.children.len()
        invariant
            sheet_ok(*stylesheet),
            i <= node.children@.len(),
            *node == *old(node),
        decreases node.children.len() - i,
    {
        let _ = compute_tree_styles_ref(&node.children[i], stylesheet, Some(&computed));
        i = i + 1;
    }
    computed
}

/// Styles of a node, visiting every descendant in document order.
fn compute_tree_styles_ref(node: &DOMNode, stylesheet: &Stylesheet, parent_styles: Option<&ComputedStyles>) -> (r: ComputedStyles)
    requires
        sheet_ok(*stylesheet),
    ensures
        r.view() == styles_spec(*node, *stylesheet, match parent_styles {
            Some(p) => Some(p.view()),
            None => None,
        }),
    decreases *node,
{
    let computed = compute_styles(node, stylesheet, parent_styles);
    let mut i: usize = 0;
    while i < node.children.len()
        invariant
            sheet_ok(*stylesheet),
            i <= node.children@.len(),
        decreases node.children.len() - i,
    {
        let _ = compute_tree_styles_ref(&node.children[i], stylesheet, Some(&computed));
        i = i + 1;
    }
    computed
}

} // verus!
