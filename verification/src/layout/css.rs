//! CSS selectors and style sheets.
use vstd::prelude::*;
use crate::text::{
    chars_of, find, find_exec, is_ws, lemma_find_from, lemma_trim_plain, pieces, split_char, split_ranges, string_of,
    string_of_all, sub_chars, trim, trimmed, valid_ranges,
};

verus! {

/// Kind of a selector.
#[derive(Debug)]
pub enum SelectorType {
    /// A tag name, such as `div`.
    Tag(String),
    /// An identifier, `#id`.
    Id(String),
    /// A class, `.class`.
    Class(String),
    /// An attribute test, `[name]` or `[name=value]`.
    Attribute {
        /// Attribute name.
        name: String,
        /// Required value, if any.
        value: Option<String>,
    },
    /// `*`
    Universal,
    /// Several simple selectors on one element, such as `div.a#b`.
    Compound(Vec<SelectorType>),
    /// `a b`
    Descendant(Box<SelectorType>, Box<SelectorType>),
    /// `a > b`
    Child(Box<SelectorType>, Box<SelectorType>),
}

/// A part of a compound selector, by its characters.
pub enum PartSpec {
    /// Tag part.
    Tag(Seq<char>),
    /// Identifier part.
    Id(Seq<char>),
    /// Class part.
    Class(Seq<char>),
}

/// A parsed selector, by its characters.
pub enum SelSpec {
    /// Tag selector.
    Tag(Seq<char>),
    /// Identifier selector.
    Id(Seq<char>),
    /// Class selector.
    Class(Seq<char>),
    /// Attribute selector.
    Attribute(Seq<char>, Option<Seq<char>>),
    /// Universal selector.
    Universal,
    /// Compound selector.
    Compound(Seq<PartSpec>),
}

/// `t` is the part `p`.
pub open spec fn part_is(t: SelectorType, p: PartSpec) -> bool {
    match p {
        PartSpec::Tag(s) => t matches SelectorType::Tag(x) && x@ == s,
        PartSpec::Id(s) => t matches SelectorType::Id(x) && x@ == s,
        PartSpec::Class(s) => t matches SelectorType::Class(x) && x@ == s,
    }
}

/// `t` is the selector `s`.
pub open spec fn sel_is(t: SelectorType, s: SelSpec) -> bool {
    match s {
        SelSpec::Tag(x) => t matches SelectorType::Tag(y) && y@ == x,
        SelSpec::Id(x) => t matches SelectorType::Id(y) && y@ == x,
        SelSpec::Class(x) => t matches SelectorType::Class(y) && y@ == x,
        SelSpec::Attribute(n, v) => t matches SelectorType::Attribute { name, value } && name@ == n
            && match v {
            None => value is None,
            Some(vv) => value matches Some(w) && w@ == vv,
        },
        SelSpec::Universal => t is Universal,
        SelSpec::Compound(ps) => t matches SelectorType::Compound(v) && v@.len() == ps.len() && forall|i: int|
            0 <= i < ps.len() ==> part_is(#[trigger] v@[i], ps[i]),
    }
}

/// `s` with leading quote characters removed.
pub open spec fn unquote_start(s: Seq<char>) -> Seq<char>
    decreases s.len(),
{
    if s.len() > 0 && (s[0] == '"' || s[0] == '\'') {
        unquote_start(s.drop_first())
    } else {
        s
    }
}

/// `s` with trailing quote characters removed.
pub open spec fn unquote_end(s: Seq<char>) -> Seq<char>
    decreases s.len(),
{
    if s.len() > 0 && (s.last() == '"' || s.last() == '\'') {
        unquote_end(s.drop_last())
    } else {
        s
    }
}

/// State while splitting a compound selector: parts so far and the current part.
pub open spec fn compound_step(st: (Seq<PartSpec>, Seq<char>), ch: char) -> (Seq<PartSpec>, Seq<char>) {
    let (parts, cur) = st;
    if ch == '.' || ch == '#' {
        let parts2 = if cur.len() > 0 {
            if parts.len() == 0 && cur[0] != '.' && cur[0] != '#' {
                parts.push(PartSpec::Tag(cur))
            } else if cur[0] == '.' {
                parts.push(PartSpec::Class(cur.drop_first()))
            } else if cur[0] == '#' {
                parts.push(PartSpec::Id(cur.drop_first()))
            } else {
                parts
            }
        } else {
            parts
        };
        (parts2, seq![ch])
    } else {
        (parts, cur.push(ch))
    }
}

/// State after the first `k` characters.
pub open spec fn compound_run(t: Seq<char>, k: int) -> (Seq<PartSpec>, Seq<char>)
    decreases k,
{
    if k <= 0 || k > t.len() {
        (Seq::empty(), Seq::empty())
    } else {
        compound_step(compound_run(t, k - 1), t[k - 1])
    }
}

/// Parts of a compound selector.
pub open spec fn compound_parts(t: Seq<char>) -> Seq<PartSpec> {
    let (parts, cur) = compound_run(t, t.len() as int);
    if cur.len() == 0 {
        parts
    } else if cur[0] == '.' {
        parts.push(PartSpec::Class(cur.drop_first()))
    } else if cur[0] == '#' {
        parts.push(PartSpec::Id(cur.drop_first()))
    } else {
        parts.push(PartSpec::Class(cur))
    }
}

/// The selector that a selector text denotes.
pub open spec fn selector_spec(text: Seq<char>) -> SelSpec {
    let t = trim(text);
    if t == seq!['*'] {
        SelSpec::Universal
    } else if t.len() > 0 && t[0] == '[' && t.last() == ']' {
        let content = t.subrange(1, t.len() - 1);
        match find(content, seq!['=']) {
            Some(e) => SelSpec::Attribute(
                trim(content.subrange(0, e)),
                Some(unquote_end(unquote_start(trim(content.subrange(e + 1, content.len() as int))))),
            ),
            None => SelSpec::Attribute(trim(content), None),
        }
    } else if (t.contains('.') || t.contains('#')) && !(t.len() > 0 && (t[0] == '.' || t[0] == '#'))
        && compound_parts(t).len() > 1 {
        SelSpec::Compound(compound_parts(t))
    } else if t.len() > 0 && t[0] == '#' {
        SelSpec::Id(t.drop_first())
    } else if t.len() > 0 && t[0] == '.' {
        SelSpec::Class(t.drop_first())
    } else {
        SelSpec::Tag(t)
    }
}

/// A selector with its source text.
/// The part that a segment after the separator `sep` gives: a class after
/// `.`, an identifier after `#`.
pub open spec fn sep_part(sep: char, b: Seq<char>) -> PartSpec {
    if sep == '.' {
        PartSpec::Class(b)
    } else {
        PartSpec::Id(b)
    }
}

/// `b` holds neither `.` nor `#`.
pub open spec fn no_sep(b: Seq<char>) -> bool {
    forall|i: int| 0 <= i < b.len() ==> b[i] != '.' && b[i] != '#'
}

/// The state after the first `k` characters depends on them alone.
proof fn lemma_run_prefix(t: Seq<char>, u: Seq<char>, k: int)
    requires
        0 <= k <= t.len(),
        k <= u.len(),
        forall|i: int| 0 <= i < k ==> t[i] == u[i],
    ensures
        compound_run(t, k) == compound_run(u, k),
    decreases k,
{
    if k > 0 {
        lemma_run_prefix(t, u, k - 1);
    }
}

/// Characters that are no separators extend the current segment.
proof fn lemma_run_plain(t: Seq<char>, k: int, j: int)
    requires
        0 < k <= j <= t.len(),
        forall|i: int| k <= i < j ==> t[i] != '.' && t[i] != '#',
    ensures
        compound_run(t, j).0 == compound_run(t, k).0,
        compound_run(t, j).1 == compound_run(t, k).1 + t.subrange(k, j),
    decreases j - k,
{
    if j > k {
        lemma_run_plain(t, k, j - 1);
        assert(compound_run(t, k).1 + t.subrange(k, j) =~= (compound_run(t, k).1 + t.subrange(k, j - 1)).push(
            t[j - 1],
        ));
    } else {
        assert(compound_run(t, k).1 + t.subrange(k, j) =~= compound_run(t, k).1);
    }
}

/// Parts once found stay, in place.
proof fn lemma_run_mono(t: Seq<char>, k: int, j: int)
    requires
        0 <= k <= j <= t.len(),
    ensures
        compound_run(t, k).0.len() <= compound_run(t, j).0.len(),
        compound_run(t, j).0.take(compound_run(t, k).0.len() as int) == compound_run(t, k).0,
    decreases j - k,
{
    if j > k {
        lemma_run_mono(t, k, j - 1);
        if k == 0 {
            assert(compound_run(t, j).0.take(0) =~= compound_run(t, k).0);
        } else {
            let a = compound_run(t, k).0;
            let b = compound_run(t, j - 1).0;
            let c = compound_run(t, j).0;
            assert(c == b || c == b.drop_last() || c.drop_last() == b || c.len() >= b.len());
            if c.len() > b.len() {
                assert(c.drop_last() == b);
                assert(c.take(a.len() as int) =~= b.take(a.len() as int));
            }
        }
    } else {
        assert(compound_run(t, j).0.take(compound_run(t, k).0.len() as int) =~= compound_run(t, k).0);
    }
}

/// The last segment of a compound selector is a class part after `.` and an
/// identifier part after `#`, its text after the separator.
pub proof fn lemma_last_segment_part(t: Seq<char>, sep: char, b: Seq<char>)
    requires
        sep == '.' || sep == '#',
        no_sep(b),
    ensures
        compound_parts(t + seq![sep] + b).len() > 0,
        compound_parts(t + seq![sep] + b).last() == sep_part(sep, b),
{
    let u = t + seq![sep] + b;
    let k = t.len() as int;
    assert(u[k] == sep);
    let n = u.len() as int;
    assert forall|i: int| k + 1 <= i < n implies u[i] != '.' && u[i] != '#' by {
        assert(u[i] == b[i - k - 1]);
    }
    assert(compound_run(u, k + 1).1 == seq![sep]);
    lemma_run_plain(u, k + 1, n);
    assert(u.subrange(k + 1, n) =~= b);
    let cur = compound_run(u, n).1;
    assert(cur =~= seq![sep] + b);
    assert(cur.drop_first() =~= b);
}

/// Every segment of a compound selector that follows `.` is a class part,
/// and every one that follows `#` an identifier part, with its text after
/// the separator.
pub proof fn lemma_segment_part(t: Seq<char>, sep: char, b: Seq<char>, sep2: char, rest: Seq<char>)
    requires
        sep == '.' || sep == '#',
        sep2 == '.' || sep2 == '#',
        b.len() > 0,
        no_sep(b),
    ensures
        compound_parts(t + seq![sep] + b + seq![sep2] + rest).contains(sep_part(sep, b)),
{
    let u = t + seq![sep] + b + seq![sep2] + rest;
    let k = t.len() as int;
    let k2 = k + 1 + b.len();
    let n = u.len() as int;
    assert(u[k] == sep);
    assert(u[k2] == sep2);
    assert forall|i: int| k + 1 <= i < k2 implies u[i] != '.' && u[i] != '#' by {
        assert(u[i] == b[i - k - 1]);
    }
    assert(compound_run(u, k + 1).1 == seq![sep]);
    lemma_run_plain(u, k + 1, k2);
    assert(u.subrange(k + 1, k2) =~= b);
    let cur = compound_run(u, k2).1;
    assert(cur =~= seq![sep] + b);
    assert(cur.drop_first() =~= b);
    let p1 = compound_run(u, k2 + 1).0;
    assert(p1 == compound_run(u, k2).0.push(sep_part(sep, b)));
    lemma_run_mono(u, k2 + 1, n);
    let pn = compound_run(u, n).0;
    let idx = compound_run(u, k2).0.len() as int;
    assert(pn.take(p1.len() as int)[idx] == p1[idx]);
    assert(pn[idx] == sep_part(sep, b));
    let parts = compound_parts(u);
    assert(parts[idx] == sep_part(sep, b));
}

/// A tag followed by one class or identifier is read as a compound of the
/// tag part and that part, whatever the words.
pub proof fn lemma_tag_and_part(a: Seq<char>, sep: char, b: Seq<char>)
    requires
        sep == '.' || sep == '#',
        a.len() > 0,
        b.len() > 0,
        no_sep(a),
        no_sep(b),
        !is_ws(a[0]),
        !is_ws(b.last()),
        a[0] != '[',
    ensures
        selector_spec(a + seq![sep] + b) == SelSpec::Compound(seq![PartSpec::Tag(a), sep_part(sep, b)]),
{
    let u = a + seq![sep] + b;
    let k = a.len() as int;
    let n = u.len() as int;
    assert(u[0] == a[0]);
    assert(u.last() == b.last());
    lemma_trim_plain(u);
    assert(u[k] == sep);
    assert forall|i: int| 0 <= i < k implies u[i] != '.' && u[i] != '#' by {
        assert(u[i] == a[i]);
    }
    assert(u[0] != '.' && u[0] != '#');
    assert(compound_run(u, 0) == (Seq::<PartSpec>::empty(), Seq::<char>::empty()));
    assert(compound_run(u, 1).1 =~= seq![u[0]]);
    assert(compound_run(u, 1).0 =~= Seq::<PartSpec>::empty());
    lemma_run_plain(u, 1, k);
    assert(seq![u[0]] + u.subrange(1, k) =~= a);
    assert(compound_run(u, k + 1).0 =~= seq![PartSpec::Tag(a)]);
    lemma_last_segment_part(a, sep, b);
    assert forall|i: int| k + 1 <= i < n implies u[i] != '.' && u[i] != '#' by {
        assert(u[i] == b[i - k - 1]);
    }
    lemma_run_plain(u, k + 1, n);
    assert(compound_parts(u) =~= seq![PartSpec::Tag(a), sep_part(sep, b)]);
    assert(u.contains(sep));
    assert(u != seq!['*']);
}

#[derive(Debug)]
pub struct Selector {
    /// Source text.
    pub text: String,
    /// Parsed kind.
    pub selector_type: SelectorType,
}

/// Builds the part for a finished segment, as the compound splitter does.
fn finish_part(parts: &mut Vec<SelectorType>, cur: &Vec<char>, ghost_parts: Ghost<Seq<PartSpec>>)
    requires
        cur@.len() > 0,
        old(parts)@.len() == ghost_parts@.len(),
        forall|i: int| 0 <= i < ghost_parts@.len() ==> part_is(#[trigger] old(parts)@[i], ghost_parts@[i]),
    ensures
        ({
            let gp = ghost_parts@;
            let np = if gp.len() == 0 && cur@[0] != '.' && cur@[0] != '#' {
                gp.push(PartSpec::Tag(cur@))
            } else if cur@[0] == '.' {
                gp.push(PartSpec::Class(cur@.drop_first()))
            } else if cur@[0] == '#' {
                gp.push(PartSpec::Id(cur@.drop_first()))
            } else {
                gp
            };
            &&& final(parts)@.len() == np.len()
            &&& forall|i: int| 0 <= i < np.len() ==> part_is(#[trigger] final(parts)@[i], np[i])
        }),
{
    if parts.len() == 0 && cur[0] != '.' && cur[0] != '#' {
        parts.push(SelectorType::Tag(string_of_all(cur)));
    } else if cur[0] == '.' {
        let s = string_of(cur, 1, cur.len());
        assert(cur@.subrange(1, cur@.len() as int) =~= cur@.drop_first());
        parts.push(SelectorType::Class(s));
    } else if cur[0] == '#' {
        let s = string_of(cur, 1, cur.len());
        assert(cur@.subrange(1, cur@.len() as int) =~= cur@.drop_first());
        parts.push(SelectorType::Id(s));
    }
}

/// Whether `c` occurs in `v`.
fn has_char(v: &[char], c: char) -> (b: bool)
    ensures
        b == v@.contains(c),
{
    let mut i: usize = 0;
    while i < v.len()
        invariant
            i <= v@.len(),
            forall|j: int| 0 <= j < i ==> v@[j] != c,
        decreases v.len() - i,
    {
        if v[i] == c {
            assert(v@[i as int] == c);
            return true;
        }
        i = i + 1;
    }
    false
}

/// Parses selector text into its kind.
pub fn parse_selector_type(text: &str) -> (r: SelectorType)
    ensures
        sel_is(r, selector_spec(text@)),
{
    let t = trimmed(&chars_of(text));
    let n = t.len();
    if n == 1 && t[0] == '*' {
        assert(t@ =~= seq!['*']);
        return SelectorType::Universal;
    }
    if n > 0 && t[0] == '[' && t[n - 1] == ']' {
        assert(t@ != seq!['*']);
        let content = sub_chars(&t, 1, n - 1);
        let eqs: Vec<char> = vec!['='];
        assert(eqs@ =~= seq!['=']);
        match find_exec(&content, &eqs) {
            Some(e) => {
                proof {
                    lemma_find_from(content@, seq!['='], 0);
                }
                let clen = content.len();
                let name = string_of_all(&trimmed(&sub_chars(&content, 0, e)));
                let rest = trimmed(&sub_chars(&content, e + 1, clen));
                let value = unquote(&rest);
                return SelectorType::Attribute { name, value: Some(value) };
            },
            None => {
                let name = string_of_all(&trimmed(&content));
                return SelectorType::Attribute { name, value: None };
            },
        }
    }
    assert(!(t@ == seq!['*'])) by {
        if t@ == seq!['*'] {
            assert(t@.len() == 1);
        }
    }
    let starts_special = n > 0 && (t[0] == '.' || t[0] == '#');
    if (has_char(&t, '.') || has_char(&t, '#')) && !starts_special {
        let mut parts: Vec<SelectorType> = Vec::new();
        let mut cur: Vec<char> = Vec::new();
        let mut i: usize = 0;
        while i < n
            invariant
                n == t@.len(),
                i <= n,
                cur@ == compound_run(t@, i as int).1,
                parts@.len() == compound_run(t@, i as int).0.len(),
                forall|j: int|
                    0 <= j < parts@.len() ==> part_is(#[trigger] parts@[j], compound_run(t@, i as int).0[j]),
            decreases n - i,
        {
            let ch = t[i];
            if ch == '.' || ch == '#' {
                if cur.len() > 0 {
                    finish_part(&mut parts, &cur, Ghost(compound_run(t@, i as int).0));
                }
                cur = Vec::new();
                cur.push(ch);
                assert(cur@ =~= seq![ch]);
            } else {
                cur.push(ch);
            }
            i = i + 1;
        }
        let ghost st = compound_run(t@, n as int);
        if cur.len() > 0 {
            if cur[0] == '.' {
                let s = string_of(&cur, 1, cur.len());
                assert(cur@.subrange(1, cur@.len() as int) =~= cur@.drop_first());
                parts.push(SelectorType::Class(s));
            } else if cur[0] == '#' {
                let s = string_of(&cur, 1, cur.len());
                assert(cur@.subrange(1, cur@.len() as int) =~= cur@.drop_first());
                parts.push(SelectorType::Id(s));
            } else {
                parts.push(SelectorType::Class(string_of_all(&cur)));
            }
        }
        assert(parts@.len() == compound_parts(t@).len());
        assert(forall|j: int| 0 <= j < parts@.len() ==> part_is(#[trigger] parts@[j], compound_parts(t@)[j]));
        if parts.len() > 1 {
            return SelectorType::Compound(parts);
        }
    }
    if n > 0 && t[0] == '#' {
        let s = string_of(&t, 1, n);
        assert(t@.subrange(1, n as int) =~= t@.drop_first());
        SelectorType::Id(s)
    } else if n > 0 && t[0] == '.' {
        let s = string_of(&t, 1, n);
        assert(t@.subrange(1, n as int) =~= t@.drop_first());
        SelectorType::Class(s)
    } else {
        SelectorType::Tag(string_of_all(&t))
    }
}

/// `v` without leading and trailing quote characters.
fn unquote(v: &[char]) -> (r: String)
    ensures
        r@ == unquote_end(unquote_start(v@)),
{
    let mut a: usize = 0;
    let n = v.len();
    assert(v@.subrange(0, n as int) =~= v@);
    while a < n && (v[a] == '"' || v[a] == '\'')
        invariant
            n == v@.len(),
            a <= n,
            unquote_start(v@) == unquote_start(v@.subrange(a as int, n as int)),
        decreases n - a,
    {
        assert(v@.subrange(a as int, n as int).drop_first() =~= v@.subrange(a + 1, n as int));
        a = a + 1;
    }
    assert(unquote_start(v@.subrange(a as int, n as int)) == v@.subrange(a as int, n as int));
    let mut b: usize = n;
    while b > a && (v[b - 1] == '"' || v[b - 1] == '\'')
        invariant
            n == v@.len(),
            a <= b <= n,
            unquote_end(v@.subrange(a as int, n as int)) == unquote_end(v@.subrange(a as int, b as int)),
        decreases b - a,
    {
        assert(v@.subrange(a as int, b as int).drop_last() =~= v@.subrange(a as int, b - 1));
        b = b - 1;
    }
    string_of(v, a, b)
}

impl Selector {
    /// Parses a selector text.
    pub fn new(text: &str) -> (s: Self)
        ensures
            s.text@ == text@,
            sel_is(s.selector_type, selector_spec(text@)),
    {
        let selector_type = parse_selector_type(text);
        Selector { text: text.to_owned(), selector_type }
    }

    /// A selector with a given kind.
    pub fn with_type(text: &str, selector_type: SelectorType) -> (s: Self)
        ensures
            s.text@ == text@,
            s.selector_type == selector_type,
    {
        Selector { text: text.to_owned(), selector_type }
    }

    /// Whether this is an identifier selector.
    pub fn is_id(&self) -> (b: bool)
        ensures
            b == (self.selector_type is Id),
    {
        match &self.selector_type {
            SelectorType::Id(_) => true,
            _ => false,
        }
    }

    /// Whether this is a class selector.
    pub fn is_class(&self) -> (b: bool)
        ensures
            b == (self.selector_type is Class),
    {
        match &self.selector_type {
            SelectorType::Class(_) => true,
            _ => false,
        }
    }

    /// Whether this is a tag selector.
    pub fn is_tag(&self) -> (b: bool)
        ensures
            b == (self.selector_type is Tag),
    {
        match &self.selector_type {
            SelectorType::Tag(_) => true,
            _ => false,
        }
    }

    /// Whether this is a compound selector.
    pub fn is_compound(&self) -> (b: bool)
        ensures
            b == (self.selector_type is Compound),
    {
        match &self.selector_type {
            SelectorType::Compound(_) => true,
            _ => false,
        }
    }
}

/// A `property: value` declaration.
#[derive(Debug, Clone)]
pub struct Declaration {
    /// Property name.
    pub property: String,
    /// Property value.
    pub value: String,
}

/// The declaration in one `;`-separated piece, if any.
pub open spec fn decl_spec(piece: Seq<char>) -> Option<(Seq<char>, Seq<char>)> {
    let d = trim(piece);
    if d.len() == 0 {
        None
    } else {
        match find(d, seq![':']) {
            None => None,
            Some(c) => Some((trim(d.subrange(0, c)), trim(d.subrange(c + 1, d.len() as int)))),
        }
    }
}

/// The declarations of a sequence of pieces, in order.
pub open spec fn decls_spec(ps: Seq<Seq<char>>) -> Seq<(Seq<char>, Seq<char>)>
    decreases ps.len(),
{
    if ps.len() == 0 {
        Seq::empty()
    } else {
        decls_spec(ps.drop_last()) + match decl_spec(ps.last()) {
            Some(x) => seq![x],
            None => Seq::empty(),
        }
    }
}

/// The declarations are exactly the given pairs.
pub open spec fn decls_are(v: Seq<Declaration>, d: Seq<(Seq<char>, Seq<char>)>) -> bool {
    v.len() == d.len() && forall|i: int|
        0 <= i < d.len() ==> (#[trigger] v[i]).property@ == d[i].0 && v[i].value@ == d[i].1
}

/// A style rule: a selector and its declarations.
#[derive(Debug)]
pub struct CSSRule {
    /// The selector.
    pub selector: Selector,
    /// The declarations, in order.
    pub declarations: Vec<Declaration>,
}

impl CSSRule {
    /// A rule from its parts.
    pub fn new(selector: Selector, declarations: Vec<Declaration>) -> (r: Self)
        ensures
            r.selector == selector,
            r.declarations == declarations,
    {
        CSSRule { selector, declarations }
    }
}

/// A style sheet: rules in source order.
#[derive(Debug)]
pub struct Stylesheet {
    /// The rules.
    pub rules: Vec<CSSRule>,
}

impl Stylesheet {
    /// An empty style sheet.
    pub fn new() -> (s: Self)
        ensures
            s.rules@.len() == 0,
    {
        Stylesheet { rules: Vec::new() }
    }

    /// Appends a rule.
    pub fn add_rule(&mut self, rule: CSSRule)
        ensures
            final(self).rules@ == old(self).rules@.push(rule),
    {
        self.rules.push(rule);
    }
}

/// `s` from position `i` on with comments removed (`in_comment` tells
/// whether position `i` is inside a comment).
pub open spec fn uncomment(s: Seq<char>, i: int, in_comment: bool) -> Seq<char>
    decreases s.len() - i,
{
    if i < 0 || i >= s.len() {
        Seq::empty()
    } else if !in_comment {
        if s[i] == '/' && i + 1 < s.len() && s[i + 1] == '*' {
            uncomment(s, i + 2, true)
        } else {
            seq![s[i]] + uncomment(s, i + 1, false)
        }
    } else {
        if s[i] == '*' && i + 1 < s.len() && s[i + 1] == '/' {
            uncomment(s, i + 2, false)
        } else {
            uncomment(s, i + 1, true)
        }
    }
}

/// Rule ranges from position `i` on, the current rule starting at `start`
/// with `depth` unclosed braces.
pub open spec fn rules_from(s: Seq<char>, i: int, start: int, depth: int) -> Seq<(int, int)>
    decreases s.len() - i,
{
    if i < 0 || i >= s.len() {
        Seq::empty()
    } else if s[i] == '{' {
        rules_from(s, i + 1, start, depth + 1)
    } else if s[i] == '}' {
        if depth - 1 == 0 {
            seq![(start, i + 1)] + rules_from(s, i + 1, i + 1, 0)
        } else {
            rules_from(s, i + 1, start, depth - 1)
        }
    } else {
        rules_from(s, i + 1, start, depth)
    }
}

/// A rule's selector text and declarations, if the text is a rule.
pub open spec fn rule_spec(rule: Seq<char>) -> Option<(Seq<char>, Seq<(Seq<char>, Seq<char>)>)> {
    match find(rule, seq!['{']) {
        None => None,
        Some(b) => {
            let sel = trim(rule.subrange(0, b));
            if rule.len() == 0 || rule.last() != '}' || sel.len() == 0 {
                None
            } else {
                Some((sel, decls_spec(split_char(rule.subrange(b + 1, rule.len() - 1), ';'))))
            }
        },
    }
}

/// The rules that a sequence of rule texts yields, in order.
pub open spec fn rules_spec(texts: Seq<Seq<char>>) -> Seq<(Seq<char>, Seq<(Seq<char>, Seq<char>)>)>
    decreases texts.len(),
{
    if texts.len() == 0 {
        Seq::empty()
    } else {
        rules_spec(texts.drop_last()) + match rule_spec(trim(texts.last())) {
            Some(x) => seq![x],
            None => Seq::empty(),
        }
    }
}

/// The rule texts of a style sheet without comments.
pub open spec fn rule_texts(css: Seq<char>) -> Seq<Seq<char>> {
    let u = uncomment(css, 0, false);
    rules_from(u, 0, 0, 0).map_values(|r: (int, int)| u.subrange(r.0, r.1))
}

/// `r` is the rule `x`.
pub open spec fn rule_is(r: CSSRule, x: (Seq<char>, Seq<(Seq<char>, Seq<char>)>)) -> bool {
    &&& r.selector.text@ == x.0
    &&& sel_is(r.selector.selector_type, selector_spec(x.0))
    &&& decls_are(r.declarations@, x.1)
}

/// The declarations of a `;`-separated text.
pub fn parse_declarations(text: &str) -> (r: Vec<Declaration>)
    ensures
        decls_are(r@, decls_spec(split_char(text@, ';'))),
{
    let v = chars_of(text);
    let ranges = split_ranges(&v, ';');
    let ghost ps = split_char(v@, ';');
    let mut out: Vec<Declaration> = Vec::new();
    let mut i: usize = 0;
    while i < ranges.len()
        invariant
            i <= ranges@.len(),
            valid_ranges(v@, ranges@),
            pieces(v@, ranges@) == ps,
            decls_are(out@, decls_spec(ps.take(i as int))),
        decreases ranges.len() - i,
    {
        let (a, b) = ranges[i];
        let piece = sub_chars(&v, a, b);
        assert(piece@ == ps[i as int]);
        assert(ps.take(i + 1).drop_last() =~= ps.take(i as int));
        let d = trimmed(&piece);
        if d.len() > 0 {
            let colon: Vec<char> = vec![':'];
            assert(colon@ =~= seq![':']);
            match find_exec(&d, &colon) {
                Some(c) => {
                    proof {
                        lemma_find_from(d@, seq![':'], 0);
                    }
                    let dlen = d.len();
                    let property = string_of_all(&trimmed(&sub_chars(&d, 0, c)));
                    let value = string_of_all(&trimmed(&sub_chars(&d, c + 1, dlen)));
                    let ghost before = out@;
                    out.push(Declaration { property, value });
                    assert(decls_are(out@, decls_spec(ps.take(i + 1)))) by {
                        assert(decls_spec(ps.take(i + 1)) =~= decls_spec(ps.take(i as int)).push(
                            decl_spec(ps[i as int])->0,
                        ));
                        assert(forall|j: int| 0 <= j < before.len() ==> out@[j] == before[j]);
                    }
                },
                None => {
                    assert(decls_spec(ps.take(i + 1)) =~= decls_spec(ps.take(i as int)));
                },
            }
        } else {
            assert(decls_spec(ps.take(i + 1)) =~= decls_spec(ps.take(i as int)));
        }
        i = i + 1;
    }
    assert(ps.take(ranges@.len() as int) =~= ps);
    out
}

/// `css` with comments removed.
pub fn remove_comments(css: &[char]) -> (r: Vec<char>)
    ensures
        r@ == uncomment(css@, 0, false),
{
    let n = css.len();
    let mut out: Vec<char> = Vec::new();
    let mut i: usize = 0;
    let mut in_comment = false;
    while i < n
        invariant
            n == css@.len(),
            i <= n + 1,
            out@ + uncomment(css@, i as int, in_comment) == uncomment(css@, 0, false),
        decreases n + 1 - i,
    {
        let ch = css[i];
        if !in_comment {
            if ch == '/' && i + 1 < n && css[i + 1] == '*' {
                in_comment = true;
                i = i + 2;
            } else {
                let ghost before = out@;
                out.push(ch);
                assert(out@ + uncomment(css@, i + 1, false) =~= before + (seq![ch] + uncomment(css@, i + 1, false)));
                i = i + 1;
            }
        } else {
            if ch == '*' && i + 1 < n && css[i + 1] == '/' {
                in_comment = false;
                i = i + 2;
            } else {
                i = i + 1;
            }
        }
    }
    assert(out@ + uncomment(css@, i as int, in_comment) =~= out@);
    out
}

/// Ranges of the top-level rules of a comment-free style sheet.
pub fn split_rules(css: &[char]) -> (r: Vec<(usize, usize)>)
    requires
        css@.len() <= 0x7fff_ffff,
    ensures
        r@.len() == rules_from(css@, 0, 0, 0).len(),
        forall|k: int| 0 <= k < r@.len() ==> (#[trigger] r@[k]).0 as int == rules_from(css@, 0, 0, 0)[k].0
            && r@[k].1 as int == rules_from(css@, 0, 0, 0)[k].1 && r@[k].0 <= r@[k].1 <= css@.len(),
{
    let n = css.len();
    let mut out: Vec<(usize, usize)> = Vec::new();
    let mut start: usize = 0;
    let mut depth: i32 = 0;
    let mut i: usize = 0;
    while i < n
        invariant
            n == css@.len(),
            n <= 0x7fff_ffff,
            i <= n,
            start <= i,
            -(i as int) <= depth <= i,
            out@.len() + rules_from(css@, i as int, start as int, depth as int).len() == rules_from(css@, 0, 0, 0).len(),
            forall|k: int| 0 <= k < out@.len() ==> (#[trigger] out@[k]).0 as int == rules_from(css@, 0, 0, 0)[k].0
                && out@[k].1 as int == rules_from(css@, 0, 0, 0)[k].1 && out@[k].0 <= out@[k].1 <= n,
            forall|k: int| 0 <= k < rules_from(css@, i as int, start as int, depth as int).len() ==>
                rules_from(css@, 0, 0, 0)[out@.len() + k] == #[trigger] rules_from(css@, i as int, start as int, depth as int)[k],
        decreases n - i,
    {
        let ch = css[i];
        let ghost cur = rules_from(css@, i as int, start as int, depth as int);
        if ch == '{' {
            depth = depth + 1;
        } else if ch == '}' {
            depth = depth - 1;
            if depth == 0 {
                let ghost next = rules_from(css@, i + 1, i + 1, 0);
                assert(cur =~= seq![(start as int, i + 1)] + next);
                assert(cur[0] == (start as int, i + 1));
                out.push((start, i + 1));
                start = i + 1;
                assert forall|k: int| 0 <= k < next.len() implies rules_from(css@, 0, 0, 0)[out@.len() + k]
                    == #[trigger] next[k] by {
                    assert(next[k] == cur[k + 1]);
                }
            }
        }
        i = i + 1;
    }
    out
}

/// A rule from its text, when the text is `selector { declarations }`.
pub fn parse_single_rule(rule_text: &[char]) -> (r: Option<CSSRule>)
    ensures
        match rule_spec(rule_text@) {
            None => r is None,
            Some(x) => r matches Some(rr) && rule_is(rr, x),
        },
{
    let open: Vec<char> = vec!['{'];
    assert(open@ =~= seq!['{']);
    let b = match find_exec(rule_text, &open) {
        Some(b) => b,
        None => return None,
    };
    proof {
        lemma_find_from(rule_text@, seq!['{'], 0);
    }
    let n = rule_text.len();
    let sel = trimmed(&sub_chars(rule_text, 0, b));
    if n == 0 || rule_text[n - 1] != '}' || sel.len() == 0 {
        return None;
    }
    assert(b + 1 <= n - 1) by {
        if b == n - 1 {
            assert(rule_text@.subrange(b as int, b + 1)[0] == '{');
        }
    }
    let sel_text = string_of_all(&sel);
    let selector = Selector::new(sel_text.as_str());
    let body = string_of(rule_text, b + 1, n - 1);
    let declarations = parse_declarations(body.as_str());
    Some(CSSRule::new(selector, declarations))
}

/// Parses a style sheet: comments are dropped, top-level `{ ... }` blocks
/// become rules, in source order.
pub fn parse_stylesheet(css: &str) -> (s: Stylesheet)
    requires
        css@.len() <= 0x7fff_ffff,
    ensures
        s.rules@.len() == rules_spec(rule_texts(css@)).len(),
        forall|k: int| 0 <= k < s.rules@.len() ==> rule_is(#[trigger] s.rules@[k], rules_spec(rule_texts(css@))[k]),
{
    let mut stylesheet = Stylesheet::new();
    let v = chars_of(css);
    let u = remove_comments(&v);
    assert(u@.len() <= v@.len()) by {
        lemma_uncomment_len(v@, 0, false);
    }
    let ranges = split_rules(&u);
    let ghost texts = rule_texts(css@);
    let mut i: usize = 0;
    while i < ranges.len()
        invariant
            i <= ranges@.len(),
            u@ == uncomment(css@, 0, false),
            ranges@.len() == rules_from(u@, 0, 0, 0).len(),
            forall|k: int| 0 <= k < ranges@.len() ==> (#[trigger] ranges@[k]).0 as int == rules_from(u@, 0, 0, 0)[k].0
                && ranges@[k].1 as int == rules_from(u@, 0, 0, 0)[k].1 && ranges@[k].0 <= ranges@[k].1 <= u@.len(),
            texts == rule_texts(css@),
            stylesheet.rules@.len() == rules_spec(texts.take(i as int)).len(),
            forall|k: int| 0 <= k < stylesheet.rules@.len() ==> rule_is(#[trigger] stylesheet.rules@[k], rules_spec(texts.take(i as int))[k]),
        decreases ranges.len() - i,
    {
        let (a, b) = ranges[i];
        let piece = sub_chars(&u, a, b);
        assert(piece@ == texts[i as int]);
        assert(texts.take(i + 1).drop_last() =~= texts.take(i as int));
        let t = trimmed(&piece);
        let ghost before = stylesheet.rules@;
        match parse_single_rule(&t) {
            Some(rule) => {
                stylesheet.add_rule(rule);
                assert(rules_spec(texts.take(i + 1)) =~= rules_spec(texts.take(i as int)).push(
                    rule_spec(trim(texts[i as int]))->0,
                ));
            },
            None => {
                assert(rules_spec(texts.take(i + 1)) =~= rules_spec(texts.take(i as int)));
            },
        }
        i = i + 1;
    }
    assert(texts.take(ranges@.len() as int) =~= texts);
    stylesheet
}

/// Removing comments never lengthens the text.
pub proof fn lemma_uncomment_len(s: Seq<char>, i: int, c: bool)
    requires
        0 <= i,
    ensures
        uncomment(s, i, c).len() <= if i <= s.len() { s.len() - i } else { 0 },
    decreases s.len() - i,
{
    if i < s.len() {
        if !c {
            if s[i] == '/' && i + 1 < s.len() && s[i + 1] == '*' {
                lemma_uncomment_len(s, i + 2, true);
            } else {
                lemma_uncomment_len(s, i + 1, false);
            }
        } else {
            if s[i] == '*' && i + 1 < s.len() && s[i + 1] == '/' {
                lemma_uncomment_len(s, i + 2, false);
            } else {
                lemma_uncomment_len(s, i + 1, true);
            }
        }
    }
}

} // verus!
