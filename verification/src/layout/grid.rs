//! Placement of grid items: `grid-column` and `grid-row` values.
use vstd::prelude::*;
use crate::text::{
    trim, trimmed, chars_of, string_of_all, starts_with, starts_with_exec, contains, find_exec,
    split_char, split_ranges, pieces, sub_chars, parse_i32, parse_i32_spec,
};
use crate::layout::style::ComputedStyles;

verus! {

/// The keyword `span`.
pub open spec fn span_kw() -> Seq<char> {
    seq!['s', 'p', 'a', 'n']
}

/// `s` with every leading copy of `p` removed (`str::trim_start_matches`).
pub open spec fn strip_all_prefix(s: Seq<char>, p: Seq<char>) -> Seq<char>
    decreases s.len(),
{
    if p.len() > 0 && starts_with(s, p) {
        strip_all_prefix(s.subrange(p.len() as int, s.len() as int), p)
    } else {
        s
    }
}

/// The `i32` read from `s`, or `d` when it does not parse.
pub open spec fn int_or(s: Seq<char>, d: int) -> int {
    match parse_i32_spec(s) {
        Some(v) => v as int,
        None => d,
    }
}

/// The span of a `span N` value (1 when `N` does not parse).
pub open spec fn span_value(c: Seq<char>) -> int {
    int_or(trim(strip_all_prefix(c, span_kw())), 1)
}

/// The start line of an `A / B` value (1 when `A` does not parse).
pub open spec fn slash_start(c: Seq<char>) -> int {
    int_or(trim(split_char(c, '/')[0]), 1)
}

/// Placement as start line, end line and span, read from a trimmed value:
/// `span N` covers lines 1 to 1 + N; `A / B` gives both lines (B defaulting
/// to A + 1); a single number `A` gives A to A + 1. Numbers that do not
/// parse count as 1.
pub open spec fn placement_of(c: Seq<char>) -> (int, int, Option<int>) {
    if starts_with(c, span_kw()) {
        let sp = span_value(c);
        (1, 1 + sp, Some(sp))
    } else if contains(c, seq!['/']) {
        let parts = split_char(c, '/');
        let start = slash_start(c);
        let end = if parts.len() > 1 {
            match parse_i32_spec(trim(parts[1])) {
                Some(v) => v as int,
                None => start + 1,
            }
        } else {
            start + 1
        };
        (start, end, None)
    } else {
        let line = int_or(c, 1);
        (line, line + 1, None)
    }
}

/// The value does not make the placement add 1 past `i32::MAX`.
pub open spec fn placement_ok(css: Seq<char>) -> bool {
    let c = trim(css);
    if starts_with(c, span_kw()) {
        span_value(c) < i32::MAX
    } else if contains(c, seq!['/']) {
        slash_start(c) < i32::MAX
    } else {
        int_or(c, 1) < i32::MAX
    }
}

/// Placement of a grid item along one axis.
#[derive(Debug, Clone, Copy, PartialEq, Eq, Structural)]
pub struct GridPlacement {
    /// Start line.
    pub start: i32,
    /// End line.
    pub end: i32,
    /// Number of tracks spanned, when given with `span`.
    pub span: Option<i32>,
}

/// `p` is the placement `(start, end, span)`.
pub open spec fn placement_is(p: GridPlacement, q: (int, int, Option<int>)) -> bool {
    &&& p.start == q.0
    &&& p.end == q.1
    &&& match q.2 {
        Some(s) => p.span == Some(s as i32),
        None => p.span is None,
    }
}

/// Removes every leading copy of `p` from `s`.
fn strip_all_prefix_exec(s: &Vec<char>, p: &Vec<char>) -> (r: Vec<char>)
    ensures
        r@ == strip_all_prefix(s@, p@),
{
    let mut cur = sub_chars(s, 0, s.len());
    assert(s@.subrange(0, s@.len() as int) =~= s@);
    while p.len() > 0 && starts_with_exec(&cur, p)
        invariant
            strip_all_prefix(cur@, p@) == strip_all_prefix(s@, p@),
        decreases cur@.len(),
    {
        cur = sub_chars(&cur, p.len(), cur.len());
    }
    cur
}

/// The `i32` read from the characters `v`, or `d`.
fn int_or_exec(v: &Vec<char>, d: i32) -> (r: i32)
    ensures
        r == int_or(v@, d as int),
{
    let s = string_of_all(v);
    match parse_i32(s.as_str()) {
        Some(x) => x,
        None => d,
    }
}

impl GridPlacement {
    /// Reads a placement: `1`, `1 / 3` or `span 2`.
    pub fn from_css(css: &str) -> (p: Self)
        requires
            placement_ok(css@),
        ensures
            placement_is(p, placement_of(trim(css@))),
    {
        let cs = chars_of(css);
        let c = trimmed(&cs);
        let kw: Vec<char> = vec!['s', 'p', 'a', 'n'];
        assert(kw@ == span_kw());
        let slash: Vec<char> = vec!['/'];
        assert(slash@ == seq!['/']);
        if starts_with_exec(&c, &kw) {
            let rest = strip_all_prefix_exec(&c, &kw);
            let rest = trimmed(&rest);
            let span = int_or_exec(&rest, 1);
            GridPlacement { start: 1, end: 1 + span, span: Some(span) }
        } else if find_exec(&c, &slash).is_some() {
            let ranges = split_ranges(&c, '/');
            proof {
                assert(pieces(c@, ranges@) == split_char(c@, '/'));
                assert(ranges@.len() == split_char(c@, '/').len());
                lemma_split_nonempty(c@, '/');
            }
            let (a, b) = ranges[0];
            let first = sub_chars(&c, a, b);
            let first = trimmed(&first);
            let start = int_or_exec(&first, 1);
            let end = if ranges.len() > 1 {
                let (a2, b2) = ranges[1];
                let second = sub_chars(&c, a2, b2);
                let second = trimmed(&second);
                let s2 = string_of_all(&second);
                match parse_i32(s2.as_str()) {
                    Some(v) => v,
                    None => start + 1,
                }
            } else {
                start + 1
            };
            GridPlacement { start, end, span: None }
        } else {
            let line = int_or_exec(&c, 1);
            GridPlacement { start: line, end: line + 1, span: None }
        }
    }
}

/// Splitting always gives at least one piece.
pub proof fn lemma_split_nonempty(s: Seq<char>, c: char)
    ensures
        split_char(s, c).len() >= 1,
    decreases s.len(),
{
    crate::text::lemma_find_from(s, seq![c], 0);
    match crate::text::find(s, seq![c]) {
        None => {},
        Some(i) => {
            lemma_split_nonempty(s.subrange(i + 1, s.len() as int), c);
        },
    }
}

/// Placement of a grid item on both axes.
#[derive(Debug, Clone, Copy, PartialEq, Eq, Structural)]
pub struct GridItemConfig {
    /// Column placement.
    pub column: GridPlacement,
    /// Row placement.
    pub row: GridPlacement,
}

/// The placement read from an optional property value; lines 1 to 2 when unset.
pub open spec fn placement_or_default(m: Map<Seq<char>, Seq<char>>, k: Seq<char>) -> (int, int, Option<int>) {
    if m.contains_key(k) {
        placement_of(trim(m[k]))
    } else {
        (1, 2, None)
    }
}

impl GridItemConfig {
    /// Reads `grid-column` and `grid-row` from the styles.
    pub fn from_styles(styles: &ComputedStyles) -> (c: Self)
        requires
            styles.view().contains_key("grid-column"@) ==> placement_ok(styles.view()["grid-column"@]),
            styles.view().contains_key("grid-row"@) ==> placement_ok(styles.view()["grid-row"@]),
        ensures
            placement_is(c.column, placement_or_default(styles.view(), "grid-column"@)),
            placement_is(c.row, placement_or_default(styles.view(), "grid-row"@)),
    {
        let column = match styles.get("grid-column") {
            Some(s) => GridPlacement::from_css(s.as_str()),
            None => GridPlacement { start: 1, end: 2, span: None },
        };
        let row = match styles.get("grid-row") {
            Some(s) => GridPlacement::from_css(s.as_str()),
            None => GridPlacement { start: 1, end: 2, span: None },
        };
        GridItemConfig { column, row }
    }
}

} // verus!
