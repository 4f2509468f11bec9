//! ES module loading: the module cache and statuses, the dependencies and
//! exports read from a module's code, and detection of circular imports.
use vstd::prelude::*;
use vstd::string::StringExecFns;
use std::path::{Path, PathBuf};
use crate::strmap::StrMap;
use crate::text::{
    chars_of, find, find_exec, lines, line_ranges, pieces, starts_with, starts_with_exec, string_of,
    sub_chars, trim, trim_bounds, words, word_ranges, split_char, split_ranges, owned, str_eq,
    valid_ranges, contains, match_at, find_from,
};
use crate::jetcrab::module::{opt_seq, str_views, copy_strings, to_path_buf, copy_path};

verus! {

/// The text between the first `open` and the next `close` after it.
pub open spec fn quoted_after(t: Seq<char>, open: Seq<char>, close: Seq<char>) -> Option<Seq<char>> {
    match find(t, open) {
        Some(s) => {
            let rest = t.subrange(s + open.len(), t.len() as int);
            match find(rest, close) {
                Some(e) => Some(rest.subrange(0, e)),
                None => None,
            }
        },
        None => None,
    }
}

/// The module named after `from` on a line, in single or else double quotes.
pub open spec fn from_path(t: Seq<char>) -> Option<Seq<char>> {
    match quoted_after(t, "from '"@, "'"@) {
        Some(x) => Some(x),
        None => quoted_after(t, "from \""@, "\""@),
    }
}

/// The modules a trimmed line depends on, in the order they are looked for:
/// an `import ... from`, an `export ... from`, and a dynamic `import('...')`.
pub open spec fn line_deps(t: Seq<char>) -> Seq<Seq<char>> {
    let a = if starts_with(t, "import "@) { from_path(t) } else { None };
    let b = if starts_with(t, "export "@) && contains(t, " from "@) { from_path(t) } else { None };
    let c = if contains(t, "import("@) { quoted_after(t, "import('"@, "'"@) } else { None };
    opt_seq(a) + opt_seq(b) + opt_seq(c)
}

/// `acc` with `x` added at the end unless already there.
pub open spec fn add_new(acc: Seq<Seq<char>>, x: Seq<char>) -> Seq<Seq<char>> {
    if acc.contains(x) {
        acc
    } else {
        acc.push(x)
    }
}

/// `acc` with each of `xs` added in turn unless already there.
pub open spec fn add_all_new(acc: Seq<Seq<char>>, xs: Seq<Seq<char>>) -> Seq<Seq<char>>
    decreases xs.len(),
{
    if xs.len() == 0 {
        acc
    } else {
        add_all_new(add_new(acc, xs[0]), xs.drop_first())
    }
}

/// The dependencies of the first `k` lines, each once, in order of first mention.
pub open spec fn esm_deps_upto(ls: Seq<Seq<char>>, k: int) -> Seq<Seq<char>>
    decreases k,
{
    if k <= 0 {
        Seq::empty()
    } else {
        add_all_new(esm_deps_upto(ls, k - 1), line_deps(trim(ls[k - 1])))
    }
}

/// The dependencies of a module's code, each once.
pub open spec fn esm_deps(code: Seq<char>) -> Seq<Seq<char>> {
    esm_deps_upto(lines(code), lines(code).len() as int)
}

/// `s` holds no quote of either kind.
pub open spec fn no_quotes(s: Seq<char>) -> bool {
    forall|i: int| 0 <= i < s.len() ==> s[i] != '"' && s[i] != '\''
}

/// A pattern holding a character that `s` lacks is found nowhere in `s`.
proof fn lemma_find_absent(s: Seq<char>, p: Seq<char>, q: int, i: int)
    requires
        0 <= q < p.len(),
        forall|j: int| 0 <= j < s.len() ==> s[j] != p[q],
    ensures
        find_from(s, p, i) is None,
    decreases s.len() + 1 - i,
{
    if !(i < 0 || i + p.len() > s.len()) {
        if match_at(s, p, i) {
            assert(s.subrange(i, i + p.len())[q] == s[i + q]);
        }
        lemma_find_absent(s, p, q, i + 1);
    }
}

/// A match with none before it is the first one found.
proof fn lemma_find_at(s: Seq<char>, p: Seq<char>, i: int, k: int)
    requires
        0 <= i <= k,
        match_at(s, p, k),
        forall|j: int| i <= j < k ==> !match_at(s, p, j),
    ensures
        find_from(s, p, i) == Some(k),
    decreases k - i,
{
    if i < k {
        lemma_find_at(s, p, i + 1, k);
    }
}

/// Adding several keeps what was there and adds each of them.
proof fn lemma_add_all_new_has(acc: Seq<Seq<char>>, xs: Seq<Seq<char>>, x: Seq<char>)
    requires
        acc.contains(x) || xs.contains(x),
    ensures
        add_all_new(acc, xs).contains(x),
    decreases xs.len(),
{
    if xs.len() > 0 {
        let a2 = add_new(acc, xs[0]);
        if acc.contains(x) {
            let i = choose|i: int| 0 <= i < acc.len() && acc[i] == x;
            if !acc.contains(xs[0]) {
                assert(a2[i] == x);
            }
        } else if xs[0] == x {
            if !acc.contains(x) {
                assert(a2[acc.len() as int] == x);
            }
        }
        if !a2.contains(x) {
            let i = choose|i: int| 0 <= i < xs.len() && xs[i] == x;
            assert(xs.drop_first()[i - 1] == x);
        }
        lemma_add_all_new_has(a2, xs.drop_first(), x);
    }
}

/// The dependencies of the first `k` lines hold those of each of them.
proof fn lemma_deps_upto_has(ls: Seq<Seq<char>>, k: int, j: int, x: Seq<char>)
    requires
        0 <= j < k,
        line_deps(trim(ls[j])).contains(x),
    ensures
        esm_deps_upto(ls, k).contains(x),
    decreases k,
{
    if j < k - 1 {
        lemma_deps_upto_has(ls, k - 1, j, x);
    }
    lemma_add_all_new_has(esm_deps_upto(ls, k - 1), line_deps(trim(ls[k - 1])), x);
}

/// A static import line names its module in double quotes as well as in
/// single ones: the dependencies of `import x from "m"...` hold `m`.
pub proof fn lemma_double_quoted_import_line(x: Seq<char>, m: Seq<char>, tail: Seq<char>)
    requires
        no_quotes(x),
        no_quotes(m),
        no_quotes(tail),
    ensures
        line_deps("import "@ + x + " from \""@ + m + "\""@ + tail).contains(m),
{
    reveal_strlit("import ");
    reveal_strlit(" from \"");
    reveal_strlit("\"");
    reveal_strlit("from '");
    reveal_strlit("'");
    reveal_strlit("from \"");
    let t = "import "@ + x + " from \""@ + m + "\""@ + tail;
    let k: int = 8 + x.len() as int;
    let q: int = k + 6 + m.len() as int;
    assert forall|i: int| 0 <= i < t.len() implies t[i] != '\'' by {
        if i < 7 {
        } else if i < 7 + x.len() {
            assert(t[i] == x[i - 7]);
        } else if i < k + 6 {
        } else if i < q {
            assert(t[i] == m[i - k - 6]);
        } else if i == q {
        } else {
            assert(t[i] == tail[i - q - 1]);
        }
    }
    lemma_find_absent(t, "from '"@, 5, 0);
    assert(quoted_after(t, "from '"@, "'"@) is None);
    let p = "from \""@;
    assert(t.subrange(k, k + 6) =~= p);
    assert forall|j: int| 0 <= j < k implies !match_at(t, p, j) by {
        if match_at(t, p, j) {
            assert(t.subrange(j, j + 6)[5] == t[j + 5]);
            if j + 5 < 7 {
            } else if j + 5 < 7 + x.len() {
                assert(t[j + 5] == x[j + 5 - 7]);
            } else {
            }
        }
    }
    lemma_find_at(t, p, 0, k);
    let rest = t.subrange(k + 6, t.len() as int);
    assert forall|j: int| 0 <= j < m.len() implies !match_at(rest, "\""@, j) by {
        assert(rest[j] == m[j]);
        if match_at(rest, "\""@, j) {
            assert(rest.subrange(j, j + 1)[0] == rest[j]);
        }
    }
    assert(rest[m.len() as int] == '"');
    assert(rest.subrange(m.len() as int, (m.len() + 1) as int) =~= "\""@);
    lemma_find_at(rest, "\""@, 0, m.len() as int);
    assert(rest.subrange(0, m.len() as int) =~= m);
    assert(t.subrange(0, 7) =~= "import "@);
    assert(from_path(t) == Some(m));
    let d = line_deps(t);
    assert(d[0] == m);
}

/// A static import line naming its module in single quotes: the
/// dependencies of `import x from 'm'...` hold `m`.
pub proof fn lemma_single_quoted_import_line(x: Seq<char>, m: Seq<char>, tail: Seq<char>)
    requires
        no_quotes(x),
        no_quotes(m),
        no_quotes(tail),
    ensures
        line_deps("import "@ + x + " from '"@ + m + "'"@ + tail).contains(m),
{
    reveal_strlit("import ");
    reveal_strlit(" from '");
    reveal_strlit("'");
    reveal_strlit("from '");
    let t = "import "@ + x + " from '"@ + m + "'"@ + tail;
    let k: int = 8 + x.len() as int;
    let p = "from '"@;
    assert(t.subrange(k, k + 6) =~= p);
    assert forall|j: int| 0 <= j < k implies !match_at(t, p, j) by {
        if match_at(t, p, j) {
            assert(t.subrange(j, j + 6)[5] == t[j + 5]);
            if j + 5 < 7 {
            } else if j + 5 < 7 + x.len() {
                assert(t[j + 5] == x[j + 5 - 7]);
            } else {
            }
        }
    }
    lemma_find_at(t, p, 0, k);
    let rest = t.subrange(k + 6, t.len() as int);
    assert forall|j: int| 0 <= j < m.len() implies !match_at(rest, "'"@, j) by {
        assert(rest[j] == m[j]);
        if match_at(rest, "'"@, j) {
            assert(rest.subrange(j, j + 1)[0] == rest[j]);
        }
    }
    assert(rest[m.len() as int] == '\'');
    assert(rest.subrange(m.len() as int, (m.len() + 1) as int) =~= "'"@);
    lemma_find_at(rest, "'"@, 0, m.len() as int);
    assert(rest.subrange(0, m.len() as int) =~= m);
    assert(t.subrange(0, 7) =~= "import "@);
    assert(from_path(t) == Some(m));
    let d = line_deps(t);
    assert(d[0] == m);
}

/// Every dependency of a line is a dependency of the code: a line that
/// reads `import x from "m"...` (after trimming) makes `m` one.
pub proof fn lemma_double_quoted_import(code: Seq<char>, j: int, x: Seq<char>, m: Seq<char>, tail: Seq<char>)
    requires
        0 <= j < lines(code).len(),
        trim(lines(code)[j]) == "import "@ + x + " from \""@ + m + "\""@ + tail,
        no_quotes(x),
        no_quotes(m),
        no_quotes(tail),
    ensures
        esm_deps(code).contains(m),
{
    lemma_double_quoted_import_line(x, m, tail);
    lemma_deps_upto_has(lines(code), lines(code).len() as int, j, m);
}

/// A line that reads `import x from 'm'...` (after trimming) makes `m` a
/// dependency of the code.
pub proof fn lemma_single_quoted_import(code: Seq<char>, j: int, x: Seq<char>, m: Seq<char>, tail: Seq<char>)
    requires
        0 <= j < lines(code).len(),
        trim(lines(code)[j]) == "import "@ + x + " from '"@ + m + "'"@ + tail,
        no_quotes(x),
        no_quotes(m),
        no_quotes(tail),
    ensures
        esm_deps(code).contains(m),
{
    lemma_single_quoted_import_line(x, m, tail);
    lemma_deps_upto_has(lines(code), lines(code).len() as int, j, m);
}

/// The first whitespace-separated word of `s`.
pub open spec fn first_word(s: Seq<char>) -> Option<Seq<char>> {
    if words(s).len() > 0 {
        Some(words(s)[0])
    } else {
        None
    }
}

/// A character that may stand in an identifier: an ASCII letter or digit,
/// `_`, `$`, or any character outside ASCII.
pub open spec fn is_ident_char(c: char) -> bool {
    ('a' <= c && c <= 'z') || ('A' <= c && c <= 'Z') || ('0' <= c && c <= '9') || c == '_' || c == '$'
        || (c as u32) >= 128
}

/// The number of identifier characters that `w` starts with, from `i` on.
pub open spec fn ident_len(w: Seq<char>, i: int) -> int
    decreases w.len() - i,
{
    if i < 0 || i >= w.len() || !is_ident_char(w[i]) {
        0
    } else {
        1 + ident_len(w, i + 1)
    }
}

/// The identifier at the start of a word, if it starts with one: `bar`
/// of `bar()`, `foo` of `foo`.
pub open spec fn leading_ident(w: Option<Seq<char>>) -> Option<Seq<char>> {
    match w {
        Some(x) => if ident_len(x, 0) > 0 {
            Some(x.subrange(0, ident_len(x, 0)))
        } else {
            None
        },
        None => None,
    }
}

/// The name a declaration export introduces: the identifier that starts the
/// word after `export const`, `export function` or `export class`.
pub open spec fn export_name(t: Seq<char>) -> Option<Seq<char>> {
    if starts_with(t, "export const "@) {
        leading_ident(first_word(t.subrange(13, t.len() as int)))
    } else if starts_with(t, "export function "@) {
        leading_ident(first_word(t.subrange(16, t.len() as int)))
    } else if starts_with(t, "export class "@) {
        leading_ident(first_word(t.subrange(13, t.len() as int)))
    } else {
        None
    }
}

/// The name an item of an export list gives: the name after `as` when
/// renamed, else the item.
pub open spec fn item_name(it: Seq<char>) -> Seq<char> {
    match find(it, " as "@) {
        Some(p) => trim(it.subrange(p + 4, it.len() as int)),
        None => it,
    }
}

/// The names of the first `k` items of an export list.
pub open spec fn items_upto(ps: Seq<Seq<char>>, k: int) -> Seq<Seq<char>>
    decreases k,
{
    if k <= 0 {
        Seq::empty()
    } else {
        items_upto(ps, k - 1) + if trim(ps[k - 1]).len() > 0 {
            seq![item_name(trim(ps[k - 1]))]
        } else {
            Seq::empty()
        }
    }
}

/// The names in an `export { ... }` list on a trimmed line.
pub open spec fn brace_exports(t: Seq<char>) -> Seq<Seq<char>> {
    if starts_with(t, "export {"@) {
        match find(t, seq!['{']) {
            Some(a) => match find(t, seq!['}']) {
                Some(b) => {
                    let ps = split_char(t.subrange(a + 1, b), ',');
                    items_upto(ps, ps.len() as int)
                },
                None => Seq::empty(),
            },
            None => Seq::empty(),
        }
    } else {
        Seq::empty()
    }
}

/// The names a trimmed line exports: `default`, a declared name, and the
/// names of an export list, in that order.
pub open spec fn line_exports(t: Seq<char>) -> Seq<Seq<char>> {
    (if starts_with(t, "export default"@) { seq!["default"@] } else { Seq::empty() }) + (if starts_with(
        t,
        "export "@,
    ) {
        opt_seq(export_name(t))
    } else {
        Seq::empty()
    }) + brace_exports(t)
}

/// The exports of the first `k` lines.
pub open spec fn esm_exports_upto(ls: Seq<Seq<char>>, k: int) -> Seq<Seq<char>>
    decreases k,
{
    if k <= 0 {
        Seq::empty()
    } else {
        esm_exports_upto(ls, k - 1) + line_exports(trim(ls[k - 1]))
    }
}

/// The exports of a module's code.
pub open spec fn esm_exports(code: Seq<char>) -> Seq<Seq<char>> {
    esm_exports_upto(lines(code), lines(code).len() as int)
}


/// The text between the first `open` in `t` and the next `close` after it.
fn quoted_after_exec(t: &Vec<char>, open: &Vec<char>, close: &Vec<char>) -> (r: Option<String>)
    ensures
        match r {
            Some(x) => quoted_after(t@, open@, close@) == Some(x@),
            None => quoted_after(t@, open@, close@) is None,
        },
{
    proof {
        crate::text::lemma_find_from(t@, open@, 0);
    }
    let tl = t.len();
    match find_exec(t, open) {
        Some(s) => {
            assert(s + open@.len() <= tl);
            let rest = sub_chars(t, s + open.len(), t.len());
            proof {
                crate::text::lemma_find_from(rest@, close@, 0);
            }
            match find_exec(&rest, close) {
                Some(e) => Some(string_of(&rest, 0, e)),
                None => None,
            }
        },
        None => None,
    }
}

/// The module named after `from` on the line `t`.
fn from_path_exec(t: &Vec<char>) -> (r: Option<String>)
    ensures
        match r {
            Some(x) => from_path(t@) == Some(x@),
            None => from_path(t@) is None,
        },
{
    let o1 = chars_of("from '");
    let c1 = chars_of("'");
    match quoted_after_exec(t, &o1, &c1) {
        Some(x) => Some(x),
        None => {
            let o2 = chars_of("from \"");
            let c2 = chars_of("\"");
            quoted_after_exec(t, &o2, &c2)
        },
    }
}

/// The dependencies of the trimmed line `t`, in order.
fn line_deps_exec(t: &Vec<char>) -> (r: Vec<String>)
    ensures
        str_views(r@) == line_deps(t@),
{
    let mut out: Vec<String> = Vec::new();
    let import_kw = chars_of("import ");
    let export_kw = chars_of("export ");
    let from_kw = chars_of(" from ");
    let dyn_kw = chars_of("import(");
    let ghost a = if starts_with(t@, "import "@) { from_path(t@) } else { None };
    let ghost b = if starts_with(t@, "export "@) && contains(t@, " from "@) { from_path(t@) } else { None };
    let ghost c = if contains(t@, "import("@) { quoted_after(t@, "import('"@, "'"@) } else { None };
    if starts_with_exec(t, &import_kw) {
        match from_path_exec(t) {
            Some(d) => out.push(d),
            None => {},
        }
    }
    assert(str_views(out@) =~= opt_seq(a));
    if starts_with_exec(t, &export_kw) && find_exec(t, &from_kw).is_some() {
        match from_path_exec(t) {
            Some(d) => out.push(d),
            None => {},
        }
    }
    assert(str_views(out@) =~= opt_seq(a) + opt_seq(b));
    if find_exec(t, &dyn_kw).is_some() {
        let o = chars_of("import('");
        let q = chars_of("'");
        match quoted_after_exec(t, &o, &q) {
            Some(d) => out.push(d),
            None => {},
        }
    }
    assert(str_views(out@) =~= opt_seq(a) + opt_seq(b) + opt_seq(c));
    out
}

/// Adds `x` at the end of `acc` unless it is there.
pub(crate) fn add_new_exec(acc: &mut Vec<String>, x: String)
    ensures
        str_views(final(acc)@) == add_new(str_views(old(acc)@), x@),
{
    let mut i: usize = 0;
    while i < acc.len()
        invariant
            i <= acc@.len(),
            forall|j: int| 0 <= j < i ==> acc@[j]@ != x@,
        decreases acc@.len() - i,
    {
        if str_eq(acc[i].as_str(), x.as_str()) {
            assert(str_views(acc@)[i as int] == x@);
            return;
        }
        i = i + 1;
    }
    proof {
        if str_views(acc@).contains(x@) {
            let j = choose|j: int| 0 <= j < str_views(acc@).len() && str_views(acc@)[j] == x@;
            assert(acc@[j]@ == x@);
        }
    }
    let ghost before = acc@;
    acc.push(x);
    assert(str_views(acc@) =~= str_views(before).push(x@));
}

/// The dependencies of a module's code: modules named in `import ... from`
/// and `export ... from` lines and in dynamic `import('...')`, each once,
/// in order of first mention.
pub fn parse_esm_dependencies(code: &str) -> (r: Vec<String>)
    ensures
        str_views(r@) == esm_deps(code@),
{
    let cs = chars_of(code);
    let ranges = line_ranges(&cs);
    let mut deps: Vec<String> = Vec::new();
    let mut i: usize = 0;
    while i < ranges.len()
        invariant
            i <= ranges@.len(),
            cs@ == code@,
            pieces(cs@, ranges@) == lines(code@),
            valid_ranges(cs@, ranges@),
            str_views(deps@) == esm_deps_upto(lines(code@), i as int),
        decreases ranges@.len() - i,
    {
        let (a, b) = ranges[i];
        let (x, y) = trim_bounds(&cs, a, b);
        proof {
            assert(pieces(cs@, ranges@)[i as int] == cs@.subrange(a as int, b as int));
        }
        let t = sub_chars(&cs, x, y);
        let cands = line_deps_exec(&t);
        let ghost start = str_views(deps@);
        let ghost xs = str_views(cands@);
        let mut k: usize = 0;
        assert(xs.skip(0) =~= xs);
        while k < cands.len()
            invariant
                k <= cands@.len(),
                xs == str_views(cands@),
                add_all_new(str_views(deps@), xs.skip(k as int)) == add_all_new(start, xs),
            decreases cands@.len() - k,
        {
            let ghost before = str_views(deps@);
            add_new_exec(&mut deps, cands[k].clone());
            proof {
                assert(xs.skip(k as int)[0] == xs[k as int]);
                assert(xs.skip(k as int).drop_first() =~= xs.skip(k + 1));
            }
            k = k + 1;
        }
        proof {
            assert(xs.skip(k as int) =~= Seq::<Seq<char>>::empty());
        }
        i = i + 1;
    }
    deps
}

/// Whether a character may stand in an identifier.
fn is_ident_char_exec(c: char) -> (r: bool)
    ensures
        r == is_ident_char(c),
{
    ('a' <= c && c <= 'z') || ('A' <= c && c <= 'Z') || ('0' <= c && c <= '9') || c == '_' || c == '$'
        || (c as u32) >= 128
}

/// The name after a declaration keyword that ends at position `n` of `t`:
/// the identifier that starts the next word.
fn first_word_from(t: &Vec<char>, n: usize) -> (r: Option<String>)
    requires
        n <= t@.len(),
    ensures
        match r {
            Some(w) => leading_ident(first_word(t@.subrange(n as int, t@.len() as int))) == Some(w@),
            None => leading_ident(first_word(t@.subrange(n as int, t@.len() as int))) is None,
        },
{
    let ws = word_ranges(t, n, t.len());
    if ws.len() > 0 {
        let (a, b) = ws[0];
        let ghost w = t@.subrange(a as int, b as int);
        proof {
            assert(pieces(t@, ws@)[0] == t@.subrange(a as int, b as int));
        }
        let mut e: usize = a;
        while e < b && is_ident_char_exec(t[e])
            invariant
                a <= e <= b,
                b <= t@.len(),
                w == t@.subrange(a as int, b as int),
                ident_len(w, 0) == (e - a) + ident_len(w, e - a),
            decreases b - e,
        {
            assert(w[e - a] == t@[e as int]);
            e = e + 1;
        }
        proof {
            if e < b {
                assert(w[e - a] == t@[e as int]);
            }
            assert(ident_len(w, e - a) == 0);
        }
        if e == a {
            None
        } else {
            let r = string_of(t, a, e);
            assert(r@ =~= w.subrange(0, ident_len(w, 0)));
            Some(r)
        }
    } else {
        None
    }
}

/// The name a declaration export on the trimmed line `t` introduces.
fn export_name_exec(t: &Vec<char>) -> (r: Option<String>)
    ensures
        match r {
            Some(w) => export_name(t@) == Some(w@),
            None => export_name(t@) is None,
        },
{
    let k1 = chars_of("export const ");
    let k2 = chars_of("export function ");
    let k3 = chars_of("export class ");
    proof {
        reveal_strlit("export const ");
        reveal_strlit("export function ");
        reveal_strlit("export class ");
    }
    if starts_with_exec(t, &k1) {
        first_word_from(t, 13)
    } else if starts_with_exec(t, &k2) {
        first_word_from(t, 16)
    } else if starts_with_exec(t, &k3) {
        first_word_from(t, 13)
    } else {
        None
    }
}

/// The names in the export list on the trimmed line `t`.
fn brace_exports_exec(t: &Vec<char>) -> (r: Vec<String>)
    ensures
        str_views(r@) == brace_exports(t@),
{
    let mut out: Vec<String> = Vec::new();
    let kw = chars_of("export {");
    if !starts_with_exec(t, &kw) {
        return out;
    }
    let lb: Vec<char> = vec!['{'];
    let rb: Vec<char> = vec!['}'];
    assert(lb@ == seq!['{']);
    assert(rb@ == seq!['}']);
    let a = match find_exec(t, &lb) {
        Some(a) => a,
        None => return out,
    };
    let b = match find_exec(t, &rb) {
        Some(b) => b,
        None => return out,
    };
    proof {
        reveal_strlit("export {");
        assert(t@.subrange(0, 8) == "export {"@);
        assert(t@[7] == '{') by {
            assert(t@.subrange(0, 8)[7] == t@[7]);
        }
        assert(match_at(t@, seq!['{'], 7)) by {
            assert(t@.subrange(7, 8) =~= seq!['{']);
        }
        crate::text::lemma_find_first(t@, seq!['{'], 0, 7);
        crate::text::lemma_find_from(t@, seq!['}'], 0);
        assert(t@[b as int] == '}') by {
            assert(t@.subrange(b as int, b + 1)[0] == t@[b as int]);
        }
        if b < 8 {
            assert(t@.subrange(0, 8)[b as int] == t@[b as int]);
        }
    }
    let inner = sub_chars(t, a + 1, b);
    let ps = split_ranges(&inner, ',');
    let ghost pv = split_char(inner@, ',');
    let sep = chars_of(" as ");
    proof {
        reveal_strlit(" as ");
    }
    let mut i: usize = 0;
    while i < ps.len()
        invariant
            i <= ps@.len(),
            sep@ == " as "@,
            sep@.len() == 4,
            pieces(inner@, ps@) == pv,
            valid_ranges(inner@, ps@),
            str_views(out@) == items_upto(pv, i as int),
        decreases ps@.len() - i,
    {
        let (x, y) = ps[i];
        proof {
            assert(pieces(inner@, ps@)[i as int] == inner@.subrange(x as int, y as int));
        }
        let (u, v) = trim_bounds(&inner, x, y);
        let it = sub_chars(&inner, u, v);
        if it.len() > 0 {
            proof {
                crate::text::lemma_find_from(it@, sep@, 0);
            }
            match find_exec(&it, &sep) {
                Some(p) => {
                    let il = it.len();
                    assert(find(it@, sep@) == Some(p as int));
                    assert(match_at(it@, sep@, p as int));
                    assert(sep@.len() == 4);
                    assert(il == it@.len());
                    assert(p + 4 <= il);
                    let (c, d) = trim_bounds(&it, p + 4, it.len());
                    out.push(string_of(&it, c, d));
                },
                None => {
                    out.push(string_of(&it, 0, it.len()));
                    assert(it@.subrange(0, it@.len() as int) =~= it@);
                },
            }
        }
        i = i + 1;
        assert(str_views(out@) =~= items_upto(pv, i as int));
    }
    out
}

/// The names the trimmed line `t` exports.
fn line_exports_exec(t: &Vec<char>) -> (r: Vec<String>)
    ensures
        str_views(r@) == line_exports(t@),
{
    let mut out: Vec<String> = Vec::new();
    let d = chars_of("export default");
    let e = chars_of("export ");
    if starts_with_exec(t, &d) {
        out.push(owned("default"));
    }
    let ghost p1 = str_views(out@);
    if starts_with_exec(t, &e) {
        match export_name_exec(t) {
            Some(n) => out.push(n),
            None => {},
        }
    }
    let ghost p2 = str_views(out@);
    let mut rest = brace_exports_exec(t);
    let ghost p3 = str_views(rest@);
    out.append(&mut rest);
    assert(str_views(out@) =~= p2 + p3);
    assert(p1 =~= (if starts_with(t@, "export default"@) { seq!["default"@] } else { Seq::empty() }));
    out
}

/// The names a module's code exports: `default`, declared names and the
/// names of export lists, line by line.
pub fn parse_esm_exports(code: &str) -> (r: Vec<String>)
    ensures
        str_views(r@) == esm_exports(code@),
{
    let cs = chars_of(code);
    let ranges = line_ranges(&cs);
    let mut out: Vec<String> = Vec::new();
    let mut i: usize = 0;
    while i < ranges.len()
        invariant
            i <= ranges@.len(),
            cs@ == code@,
            pieces(cs@, ranges@) == lines(code@),
            valid_ranges(cs@, ranges@),
            str_views(out@) == esm_exports_upto(lines(code@), i as int),
        decreases ranges@.len() - i,
    {
        let (a, b) = ranges[i];
        let (x, y) = trim_bounds(&cs, a, b);
        proof {
            assert(pieces(cs@, ranges@)[i as int] == cs@.subrange(a as int, b as int));
        }
        let t = sub_chars(&cs, x, y);
        let ghost before = str_views(out@);
        let mut names = line_exports_exec(&t);
        let ghost nv = str_views(names@);
        out.append(&mut names);
        i = i + 1;
        assert(str_views(out@) =~= before + nv);
    }
    out
}


/// The names joined by ` -> `.
pub open spec fn join_arrows(s: Seq<Seq<char>>) -> Seq<char>
    decreases s.len(),
{
    if s.len() == 0 {
        Seq::empty()
    } else if s.len() == 1 {
        s[0]
    } else {
        join_arrows(s.drop_last()) + " -> "@ + s.last()
    }
}

/// The stack of modules being loaded, to detect circular imports.
#[derive(Debug)]
pub struct CycleDetector {
    loading_stack: Vec<String>,
}

impl CycleDetector {
    /// The modules being loaded, outermost first.
    pub closed spec fn stack(&self) -> Seq<Seq<char>> {
        str_views(self.loading_stack@)
    }

    /// An empty stack.
    pub fn new() -> (d: Self)
        ensures
            d.stack().len() == 0,
    {
        CycleDetector { loading_stack: Vec::new() }
    }

    /// Enters a module: an error naming the cycle when it is already being loaded.
    pub fn push(&mut self, module: &str) -> (r: Result<(), String>)
        ensures
            old(self).stack().contains(module@) ==> (r matches Err(e) && e@ == "Circular dependency detected: "@
                + join_arrows(old(self).stack()) + " -> "@ + module@ && final(self).stack() == old(self).stack()),
            !old(self).stack().contains(module@) ==> r is Ok && final(self).stack() == old(self).stack().push(
                module@,
            ),
    {
        let mut i: usize = 0;
        while i < self.loading_stack.len()
            invariant
                i <= self.loading_stack@.len(),
                forall|j: int| 0 <= j < i ==> self.loading_stack@[j]@ != module@,
            decreases self.loading_stack@.len() - i,
        {
            if str_eq(self.loading_stack[i].as_str(), module) {
                proof {
                    assert(self.stack()[i as int] == module@);
                }
                let cycle = self.joined();
                let msg = owned("Circular dependency detected: ").concat(cycle.as_str()).concat(" -> ").concat(module);
                return Err(msg);
            }
            i = i + 1;
        }
        proof {
            if self.stack().contains(module@) {
                let j = choose|j: int| 0 <= j < self.stack().len() && self.stack()[j] == module@;
                assert(self.loading_stack@[j]@ == module@);
            }
        }
        self.loading_stack.push(owned(module));
        assert(self.stack() =~= old(self).stack().push(module@));
        Ok(())
    }

    /// The stack joined by ` -> `.
    fn joined(&self) -> (s: String)
        ensures
            s@ == join_arrows(self.stack()),
    {
        let mut s = String::new();
        let mut i: usize = 0;
        while i < self.loading_stack.len()
            invariant
                i <= self.loading_stack@.len(),
                s@ == join_arrows(self.stack().take(i as int)),
            decreases self.loading_stack@.len() - i,
        {
            if i > 0 {
                s = s.concat(" -> ");
            }
            s = s.concat(self.loading_stack[i].as_str());
            proof {
                let t = self.stack().take(i + 1);
                assert(t.drop_last() =~= self.stack().take(i as int));
                if i == 0 {
                    assert(s@ =~= t[0]);
                }
            }
            i = i + 1;
        }
        assert(self.stack().take(i as int) =~= self.stack());
        s
    }

    /// Leaves `module` when it is the innermost module; otherwise nothing
    /// changes.
    pub fn leave(&mut self, module: &str)
        ensures
            final(self).stack() == left(old(self).stack(), module@),
    {
        let n = self.loading_stack.len();
        if n > 0 && str_eq(self.loading_stack[n - 1].as_str(), module) {
            let _ = self.loading_stack.pop();
            assert(self.stack() =~= old(self).stack().drop_last());
        }
    }

    /// Leaves the innermost module, if any.
    pub fn pop(&mut self)
        ensures
            old(self).stack().len() == 0 ==> final(self).stack().len() == 0,
            old(self).stack().len() > 0 ==> final(self).stack() == old(self).stack().drop_last(),
    {
        let _ = self.loading_stack.pop();
        assert(self.stack() =~= old(self).stack().drop_last() || old(self).stack().len() == 0);
    }
}


/// The loading stack after leaving `m`: without its top when that is `m`.
pub open spec fn left(stack: Seq<Seq<char>>, m: Seq<char>) -> Seq<Seq<char>> {
    if stack.len() > 0 && stack.last() == m {
        stack.drop_last()
    } else {
        stack
    }
}

/// A load that starts and is given up leaves the loading stack as it was,
/// so the same load can be tried again.
pub proof fn lemma_aborted_load_restores(stack: Seq<Seq<char>>, m: Seq<char>)
    ensures
        left(stack.push(m), m) == stack,
{
    assert(stack.push(m).drop_last() =~= stack);
}

/// What was found of a module's file, looked up in the search directories.
#[derive(Debug)]
pub enum ModuleFile {
    /// No search directory holds it.
    NotFound,
    /// It was found but could not be read: why.
    Unreadable(String),
    /// Where it was found, and its code.
    Read(PathBuf, String),
}

/// A loaded ES module.
#[derive(Debug)]
pub struct ESMModuleInfo {
    /// Where it was read from.
    pub path: PathBuf,
    /// Its code.
    pub code: String,
    /// Modules it depends on.
    pub dependencies: Vec<String>,
    /// Names it exports.
    pub exports: Vec<String>,
    /// Whether it has been compiled.
    pub compiled: bool,
    /// The compiled code.
    pub compiled_code: Option<String>,
}

/// The characters of an optional string.
pub open spec fn opt_str(o: Option<String>) -> Option<Seq<char>> {
    match o {
        Some(s) => Some(s@),
        None => None,
    }
}

/// `b` holds the code, dependencies, exports and compilation of `a`.
pub open spec fn esm_copied(a: ESMModuleInfo, b: ESMModuleInfo) -> bool {
    &&& a.code@ == b.code@
    &&& str_views(a.dependencies@) == str_views(b.dependencies@)
    &&& str_views(a.exports@) == str_views(b.exports@)
    &&& a.compiled == b.compiled
    &&& opt_str(a.compiled_code) == opt_str(b.compiled_code)
}

impl ESMModuleInfo {
    /// A copy.
    pub fn copy(&self) -> (m: Self)
        ensures
            esm_copied(*self, m),
    {
        ESMModuleInfo {
            path: copy_path(&self.path),
            code: self.code.clone(),
            dependencies: copy_strings(&self.dependencies),
            exports: copy_strings(&self.exports),
            compiled: self.compiled,
            compiled_code: match &self.compiled_code {
                Some(c) => Some(c.clone()),
                None => None,
            },
        }
    }
}

/// Loading state of a module.
#[derive(Debug, Clone, PartialEq)]
pub enum ModuleStatus {
    /// Not loaded.
    Unloaded,
    /// Being loaded.
    Loading,
    /// Loaded.
    Loaded,
    /// Compiled.
    Compiled,
    /// Failed, with the reason.
    Error(String),
}

/// A cached module with its status.
#[derive(Debug)]
pub struct ModuleRegistryEntry {
    /// The module.
    pub info: ESMModuleInfo,
    /// Its status.
    pub status: ModuleStatus,
}

/// The exports of a module as a map from each name to an empty value.
pub open spec fn export_slots(e: Seq<Seq<char>>) -> Map<Seq<char>, Seq<char>> {
    Map::new(|k: Seq<char>| e.contains(k), |k: Seq<char>| Seq::<char>::empty())
}

/// Loader of ES modules: cache with statuses, exports, and the stack of
/// modules being loaded.
#[derive(Debug)]
pub struct ESMModuleLoader {
    cache: StrMap<ModuleRegistryEntry>,
    search_paths: Vec<PathBuf>,
    cycle_detector: CycleDetector,
    exports_cache: StrMap<StrMap<String>>,
}

impl ESMModuleLoader {
    /// The cached modules.
    pub closed spec fn cached(&self) -> Map<Seq<char>, ModuleRegistryEntry> {
        self.cache@
    }

    /// The export maps of loaded modules.
    pub closed spec fn export_maps(&self) -> Map<Seq<char>, Map<Seq<char>, Seq<char>>> {
        Map::new(|k: Seq<char>| self.exports_cache@.contains_key(k), |k: Seq<char>| self.exports_cache@[k].sview())
    }

    /// The modules being loaded.
    pub closed spec fn loading(&self) -> Seq<Seq<char>> {
        self.cycle_detector.stack()
    }

    /// The directories searched, in order.
    pub closed spec fn search_dirs(&self) -> Seq<PathBuf> {
        self.search_paths@
    }

    /// Number of directories searched.
    pub open spec fn search_count(&self) -> nat {
        self.search_dirs().len()
    }

    /// An empty loader.
    pub fn new() -> (l: Self)
        ensures
            l.cached() == Map::<Seq<char>, ModuleRegistryEntry>::empty(),
            l.export_maps() == Map::<Seq<char>, Map<Seq<char>, Seq<char>>>::empty(),
            l.loading().len() == 0,
            l.search_dirs().len() == 0,
    {
        let l = ESMModuleLoader {
            cache: StrMap::new(),
            search_paths: Vec::new(),
            cycle_detector: CycleDetector::new(),
            exports_cache: StrMap::new(),
        };
        assert(l.export_maps() =~= Map::<Seq<char>, Map<Seq<char>, Seq<char>>>::empty());
        l
    }

    /// The directories searched, in order.
    pub fn search_paths(&self) -> (r: &Vec<PathBuf>)
        ensures
            r@ == self.search_dirs(),
    {
        &self.search_paths
    }

    /// Adds a directory to search.
    pub fn add_search_path(&mut self, path: &Path)
        ensures
            final(self).search_count() == old(self).search_count() + 1,
            final(self).search_dirs().drop_last() == old(self).search_dirs(),
            final(self).cached() == old(self).cached(),
            final(self).export_maps() == old(self).export_maps(),
            final(self).loading() == old(self).loading(),
    {
        self.search_paths.push(to_path_buf(path));
    }

    /// Loads `mod_path` (with cycle detection), given what was found of its
    /// file: a loaded or compiled module in the cache is returned; a module
    /// already being loaded is a circular import; a file not found or not
    /// readable is an error and leaves the loader as it was, so that the
    /// same load fails the same way again; a file read is recorded as
    /// loaded.
    pub fn load_module(&mut self, mod_path: &str, file: ModuleFile) -> (r: Result<ESMModuleInfo, String>)
        ensures
            ({
                let hit = old(self).cached().contains_key(mod_path@) && (old(self).cached()[mod_path@].status
                    is Loaded || old(self).cached()[mod_path@].status is Compiled);
                let unchanged = final(self).cached() == old(self).cached() && final(self).export_maps() == old(
                    self,
                ).export_maps() && final(self).loading() == old(self).loading() && final(self).search_dirs()
                    == old(self).search_dirs();
                if hit {
                    r matches Ok(m) && esm_copied(old(self).cached()[mod_path@].info, m) && unchanged
                } else if old(self).loading().contains(mod_path@) {
                    r matches Err(e) && e@ == "Circular dependency detected: "@ + join_arrows(old(self).loading())
                        + " -> "@ + mod_path@ && unchanged
                } else {
                    match file {
                        ModuleFile::NotFound => r matches Err(e) && e@ == "Module not found: "@ + mod_path@
                            && unchanged,
                        ModuleFile::Unreadable(why) => r matches Err(e) && e@ == "Failed to read module: "@ + why@
                            && unchanged,
                        ModuleFile::Read(_, code) => {
                            &&& r matches Ok(m) && m.code@ == code@ && str_views(m.dependencies@) == esm_deps(code@)
                                && str_views(m.exports@) == esm_exports(code@) && !m.compiled && m.compiled_code is None
                                && final(self).cached().contains_key(mod_path@) && esm_copied(
                                m,
                                final(self).cached()[mod_path@].info,
                            ) && final(self).cached()[mod_path@].status is Loaded
                            &&& final(self).cached().remove(mod_path@) == old(self).cached().remove(mod_path@)
                            &&& final(self).export_maps() == old(self).export_maps().insert(
                                mod_path@,
                                export_slots(esm_exports(code@)),
                            )
                            &&& final(self).loading() == old(self).loading()
                            &&& final(self).search_dirs() == old(self).search_dirs()
                        },
                    }
                }
            }),
    {
        match self.begin_load(mod_path) {
            Ok(Some(m)) => return Ok(m),
            Ok(None) => {},
            Err(e) => return Err(e),
        }
        proof {
            lemma_aborted_load_restores(old(self).loading(), mod_path@);
            assert(self.loading().drop_last() =~= old(self).loading());
        }
        match file {
            ModuleFile::NotFound => {
                self.abort_load(mod_path);
                Err(owned("Module not found: ").concat(mod_path))
            },
            ModuleFile::Unreadable(why) => {
                self.abort_load(mod_path);
                Err(owned("Failed to read module: ").concat(why.as_str()))
            },
            ModuleFile::Read(full_path, code) => self.finish_load(mod_path, full_path, code.as_str()),
        }
    }

    /// First step of loading `mod_path`: a loaded or compiled module in the
    /// cache is returned; otherwise the module enters the loading stack (an
    /// error when it is already there, a circular import) and `None` says
    /// that its code is to be read.
    pub fn begin_load(&mut self, mod_path: &str) -> (r: Result<Option<ESMModuleInfo>, String>)
        ensures
            ({
                let hit = old(self).cached().contains_key(mod_path@) && (old(self).cached()[mod_path@].status
                    is Loaded || old(self).cached()[mod_path@].status is Compiled);
                &&& hit ==> (r matches Ok(Some(m)) && esm_copied(old(self).cached()[mod_path@].info, m))
                &&& hit ==> final(self).loading() == old(self).loading()
                &&& !hit && old(self).loading().contains(mod_path@) ==> (r matches Err(e) && e@
                    == "Circular dependency detected: "@ + join_arrows(old(self).loading()) + " -> "@ + mod_path@
                    && final(self).loading() == old(self).loading())
                &&& !hit && !old(self).loading().contains(mod_path@) ==> (r matches Ok(None) && final(self).loading()
                    == old(self).loading().push(mod_path@))
                &&& final(self).cached() == old(self).cached()
                &&& final(self).export_maps() == old(self).export_maps()
                &&& final(self).search_dirs() == old(self).search_dirs()
            }),
    {
        match self.cache.get(mod_path) {
            Some(entry) => {
                let done = match entry.status {
                    ModuleStatus::Loaded | ModuleStatus::Compiled => true,
                    _ => false,
                };
                if done {
                    return Ok(Some(entry.info.copy()));
                }
            },
            None => {},
        }
        match self.cycle_detector.push(mod_path) {
            Ok(()) => Ok(None),
            Err(e) => Err(e),
        }
    }

    /// Gives up loading `mod_path` after `begin_load` let it start (its file
    /// was not found or could not be read): it leaves the loading stack, and
    /// nothing else changes.
    pub fn abort_load(&mut self, mod_path: &str)
        ensures
            final(self).loading() == left(old(self).loading(), mod_path@),
            final(self).cached() == old(self).cached(),
            final(self).export_maps() == old(self).export_maps(),
            final(self).search_dirs() == old(self).search_dirs(),
    {
        self.cycle_detector.leave(mod_path);
    }

    /// Second step of loading: records the module `mod_path` read from
    /// `full_path` with its dependencies and exports, as loaded, and leaves
    /// the loading stack.
    pub fn finish_load(&mut self, mod_path: &str, full_path: PathBuf, code: &str) -> (r: Result<ESMModuleInfo, String>)
        ensures
            r matches Ok(m) && m.code@ == code@ && str_views(m.dependencies@) == esm_deps(code@) && str_views(
                m.exports@,
            ) == esm_exports(code@) && !m.compiled && m.compiled_code is None && final(self).cached().contains_key(
                mod_path@,
            ) && esm_copied(m, final(self).cached()[mod_path@].info) && final(self).cached()[mod_path@].status
                is Loaded,
            final(self).cached().remove(mod_path@) == old(self).cached().remove(mod_path@),
            final(self).export_maps() == old(self).export_maps().insert(mod_path@, export_slots(esm_exports(code@))),
            old(self).loading().len() > 0 ==> final(self).loading() == old(self).loading().drop_last(),
            old(self).loading().len() == 0 ==> final(self).loading().len() == 0,
            final(self).search_dirs() == old(self).search_dirs(),
    {
        let dependencies = parse_esm_dependencies(code);
        let exports = parse_esm_exports(code);
        let info = ESMModuleInfo {
            path: full_path,
            code: owned(code),
            dependencies,
            exports,
            compiled: false,
            compiled_code: None,
        };
        let entry = ModuleRegistryEntry { info: info.copy(), status: ModuleStatus::Loaded };
        self.cache.insert(mod_path, entry);
        let mut slots: StrMap<String> = StrMap::new();
        let mut i: usize = 0;
        while i < info.exports.len()
            invariant
                i <= info.exports@.len(),
                slots.sview() == export_slots(str_views(info.exports@).take(i as int)),
            decreases info.exports@.len() - i,
        {
            let ghost before = slots.sview();
            slots.set_str(info.exports[i].as_str(), "");
            i = i + 1;
            proof {
                reveal_strlit("");
                assert(""@ =~= Seq::<char>::empty());
                let e = str_views(info.exports@);
                assert(e[i - 1] == info.exports@[i - 1]@);
                assert(slots.sview() == before.insert(e[i - 1], Seq::<char>::empty()));
                assert(e.take(i as int) =~= e.take(i - 1).push(e[i - 1]));
                assert forall|k: Seq<char>| #![auto] e.take(i as int).contains(k) <==> (e.take(i - 1).contains(k) || k == e[i - 1]) by {
                    crate::layout::vdom::lemma_contains_push(e.take(i - 1), e[i - 1], k);
                }
                assert(slots.sview() =~= export_slots(e.take(i as int)));
            }
        }
        assert(str_views(info.exports@).take(info.exports@.len() as int) =~= str_views(info.exports@));
        self.exports_cache.insert(mod_path, slots);
        self.cycle_detector.pop();
        proof {
            assert(self.cached().remove(mod_path@) =~= old(self).cached().remove(mod_path@));
            assert(self.export_maps() =~= old(self).export_maps().insert(mod_path@, export_slots(esm_exports(code@))));
        }
        Ok(info)
    }

    /// The names tried for a module in each search directory, in order:
    /// the path itself, with `.js`, with `.mjs`, and its `index.js`.
    pub fn candidate_names(&self, mod_path: &str) -> (r: Vec<String>)
        ensures
            str_views(r@) == seq![mod_path@, mod_path@ + ".js"@, mod_path@ + ".mjs"@, mod_path@ + "/index.js"@],
    {
        let r = vec![
            String::from_str(mod_path),
            String::from_str(mod_path).concat(".js"),
            String::from_str(mod_path).concat(".mjs"),
            String::from_str(mod_path).concat("/index.js"),
        ];
        assert(str_views(r@) =~= seq![mod_path@, mod_path@ + ".js"@, mod_path@ + ".mjs"@, mod_path@ + "/index.js"@]);
        r
    }

    /// The dependencies of a module's code (see [`parse_esm_dependencies`]).
    pub fn parse_dependencies(&self, code: &str) -> (r: Result<Vec<String>, String>)
        ensures
            r matches Ok(d) && str_views(d@) == esm_deps(code@),
    {
        Ok(parse_esm_dependencies(code))
    }

    /// The exports of a module's code (see [`parse_esm_exports`]).
    pub fn parse_exports(&self, code: &str) -> (r: Result<Vec<String>, String>)
        ensures
            r matches Ok(e) && str_views(e@) == esm_exports(code@),
    {
        Ok(parse_esm_exports(code))
    }

    /// Compiling checks that the code is not empty and keeps it as it is.
    pub fn simple_compile(&self, code: &str) -> (r: Result<String, String>)
        ensures
            code@.len() == 0 ==> (r matches Err(e) && e@ == "Empty module code"@),
            code@.len() > 0 ==> (r matches Ok(c) && c@ == code@),
    {
        if code.is_empty() {
            return Err(owned("Empty module code"));
        }
        Ok(owned(code))
    }

    /// Compiles the loaded module `module` of `mod_path`: its compiled code
    /// when it has some, else the result of compiling its code, recorded in
    /// the cache entry, which becomes compiled.
    pub fn compile_module(&mut self, mod_path: &str, module: &ESMModuleInfo) -> (r: Result<String, String>)
        ensures
            module.compiled && module.compiled_code is Some ==> (r matches Ok(c) && Some(c@) == opt_str(
                module.compiled_code,
            ) && final(self).cached() == old(self).cached()),
            !(module.compiled && module.compiled_code is Some) && module.code@.len() == 0 ==> (r matches Err(e)
                && e@ == "Empty module code"@ && final(self).cached() == old(self).cached()),
            !(module.compiled && module.compiled_code is Some) && module.code@.len() > 0 ==> (r matches Ok(c)
                && c@ == module.code@ && final(self).cached().dom() == old(self).cached().dom() && (old(
                self,
            ).cached().contains_key(mod_path@) ==> ({
                let o = old(self).cached()[mod_path@];
                let n = final(self).cached()[mod_path@];
                &&& n.status is Compiled
                &&& n.info.compiled
                &&& opt_str(n.info.compiled_code) == Some(module.code@)
                &&& n.info.code@ == o.info.code@
                &&& str_views(n.info.dependencies@) == str_views(o.info.dependencies@)
                &&& str_views(n.info.exports@) == str_views(o.info.exports@)
            })) && final(self).cached().remove(mod_path@) == old(self).cached().remove(mod_path@)),
            final(self).export_maps() == old(self).export_maps(),
            final(self).loading() == old(self).loading(),
            final(self).search_dirs() == old(self).search_dirs(),
    {
        if module.compiled {
            match &module.compiled_code {
                Some(c) => return Ok(c.clone()),
                None => {},
            }
        }
        let compiled = match self.simple_compile(module.code.as_str()) {
            Ok(c) => c,
            Err(e) => return Err(e),
        };
        match self.cache.remove(mod_path) {
            Some(entry) => {
                let ModuleRegistryEntry { info, status: _ } = entry;
                let mut info = info;
                info.compiled = true;
                info.compiled_code = Some(compiled.clone());
                self.cache.insert(mod_path, ModuleRegistryEntry { info, status: ModuleStatus::Compiled });
            },
            None => {},
        }
        proof {
            assert(self.cached().dom() =~= old(self).cached().dom());
            assert(self.cached().remove(mod_path@) =~= old(self).cached().remove(mod_path@));
        }
        Ok(compiled)
    }

    /// A copy of the export map of `mod_path`.
    pub fn get_exports(&self, mod_path: &str) -> (r: Option<StrMap<String>>)
        ensures
            match r {
                Some(m) => self.export_maps().contains_key(mod_path@) && m.sview() == self.export_maps()[mod_path@],
                None => !self.export_maps().contains_key(mod_path@),
            },
    {
        match self.exports_cache.get(mod_path) {
            Some(m) => {
                let c = m.copy();
                assert(c.sview() =~= m.sview());
                Some(c)
            },
            None => None,
        }
    }

    /// A copy of the cached module `mod_path`.
    pub fn get_cached(&self, mod_path: &str) -> (r: Option<ESMModuleInfo>)
        ensures
            match r {
                Some(m) => self.cached().contains_key(mod_path@) && esm_copied(self.cached()[mod_path@].info, m),
                None => !self.cached().contains_key(mod_path@),
            },
    {
        match self.cache.get(mod_path) {
            Some(e) => Some(e.info.copy()),
            None => None,
        }
    }

    /// The status of `mod_path` (unloaded when not cached).
    pub fn get_status(&self, mod_path: &str) -> (r: ModuleStatus)
        ensures
            match self.cached().get(mod_path@) {
                Some(e) => match e.status {
                    ModuleStatus::Error(m) => r matches ModuleStatus::Error(x) && x@ == m@,
                    _ => r == e.status,
                },
                None => r == ModuleStatus::Unloaded,
            },
    {
        match self.cache.get(mod_path) {
            Some(e) => match &e.status {
                ModuleStatus::Unloaded => ModuleStatus::Unloaded,
                ModuleStatus::Loading => ModuleStatus::Loading,
                ModuleStatus::Loaded => ModuleStatus::Loaded,
                ModuleStatus::Compiled => ModuleStatus::Compiled,
                ModuleStatus::Error(m) => ModuleStatus::Error(m.clone()),
            },
            None => ModuleStatus::Unloaded,
        }
    }

    /// Empties the module and export caches.
    pub fn clear_cache(&mut self)
        ensures
            final(self).cached() == Map::<Seq<char>, ModuleRegistryEntry>::empty(),
            final(self).export_maps() == Map::<Seq<char>, Map<Seq<char>, Seq<char>>>::empty(),
            final(self).loading() == old(self).loading(),
            final(self).search_dirs() == old(self).search_dirs(),
    {
        self.cache.clear();
        self.exports_cache.clear();
        assert(self.export_maps() =~= Map::<Seq<char>, Map<Seq<char>, Seq<char>>>::empty());
    }

    /// Number of cached modules.
    pub fn cache_size(&self) -> (n: usize)
        ensures
            n == self.cached().dom().len(),
    {
        self.cache.len()
    }

    /// The dependencies of each cached module.
    pub fn get_dependency_graph(&self) -> (g: StrMap<Vec<String>>)
        ensures
            g@.dom() == self.cached().dom(),
            forall|k: Seq<char>| #[trigger] g@.contains_key(k) ==> str_views(g@[k]@) == str_views(
                self.cached()[k].info.dependencies@,
            ),
    {
        proof {
            use_type_invariant(&self.cache);
            self.cache.lemma_keys();
            self.cache.lemma_key_seq_in_dom();
        }
        let mut g: StrMap<Vec<String>> = StrMap::new();
        let n = self.cache.len();
        let mut i: usize = 0;
        while i < n
            invariant
                i <= n,
                n == self.cache.key_seq().len(),
                forall|k: Seq<char>| self.cache@.dom().contains(k) <==> self.cache.key_seq().contains(k),
                forall|j: int| 0 <= j < n ==> self.cache@.dom().contains(#[trigger] self.cache.key_seq()[j]),
                forall|k: Seq<char>| #[trigger] g@.contains_key(k) <==> self.cache.key_seq().take(i as int).contains(k),
                forall|k: Seq<char>| #[trigger] g@.contains_key(k) ==> str_views(g@[k]@) == str_views(
                    self.cache@[k].info.dependencies@,
                ),
            decreases n - i,
        {
            let key = self.cache.key_at(i);
            let entry = self.cache.value_at(i);
            let deps = copy_strings(&entry.info.dependencies);
            g.insert(key.as_str(), deps);
            i = i + 1;
            proof {
                let ks = self.cache.key_seq();
                assert(ks.take(i as int) =~= ks.take(i - 1).push(ks[i - 1]));
                assert forall|k: Seq<char>| #[trigger] g@.contains_key(k) <==> ks.take(i as int).contains(k) by {
                    crate::layout::vdom::lemma_contains_push(ks.take(i - 1), ks[i - 1], k);
                }
            }
        }
        proof {
            assert(self.cache.key_seq().take(n as int) =~= self.cache.key_seq());
            assert(g@.dom() =~= self.cached().dom());
        }
        g
    }
}

} // verus!
