//! Assembling compiled single-file components: the render function joined to
//! the component's script, the imports the script makes, and the resolution
//! of import paths.
use vstd::prelude::*;
use crate::text::{
    chars_of, contains, find, find_exec, find_from_exec, lines, line_ranges, lemma_find_from, owned, pieces,
    replace_all, replace_exec, rfind, rfind_exec, seq_eq, starts_with, ends_with, ends_with_exec, starts_with_exec,
    string_of, string_of_all, sub_chars, trim, trim_bounds, valid_ranges,
};
use crate::jetcrab::module::{opt_seq, str_views};
use crate::jetcrab::esm::opt_str;

verus! {

/// A style block of a component.
#[derive(Debug, Clone)]
pub struct StyleBlock {
    /// CSS code.
    pub code: String,
    /// Whether the styles are scoped to the component.
    pub scoped: bool,
}

/// A compiled component.
#[derive(Debug)]
pub struct CompiledModule {
    /// The JavaScript of the component.
    pub script: String,
    /// Its style blocks.
    pub styles: Vec<StyleBlock>,
    /// The modules it imports.
    pub deps: Vec<String>,
}

/// The style blocks by their parts.
pub open spec fn style_views(v: Seq<StyleBlock>) -> Seq<(Seq<char>, bool)> {
    v.map_values(|b: StyleBlock| (b.code@, b.scoped))
}

/// `b` holds the same script, styles and dependencies as `a`.
pub open spec fn module_copied(a: CompiledModule, b: CompiledModule) -> bool {
    &&& a.script@ == b.script@
    &&& style_views(a.styles@) == style_views(b.styles@)
    &&& str_views(a.deps@) == str_views(b.deps@)
}

impl StyleBlock {
    /// A copy.
    pub fn copy(&self) -> (r: Self)
        ensures
            r.code@ == self.code@,
            r.scoped == self.scoped,
    {
        StyleBlock { code: self.code.clone(), scoped: self.scoped }
    }
}

impl CompiledModule {
    /// A copy.
    pub fn copy(&self) -> (r: Self)
        ensures
            module_copied(*self, r),
    {
        let mut styles: Vec<StyleBlock> = Vec::new();
        let mut i: usize = 0;
        while i < self.styles.len()
            invariant
                i <= self.styles@.len(),
                style_views(styles@) == style_views(self.styles@.take(i as int)),
            decreases self.styles@.len() - i,
        {
            let ghost before = styles@;
            styles.push(self.styles[i].copy());
            i = i + 1;
            assert(style_views(styles@) =~= style_views(self.styles@.take(i as int))) by {
                assert(style_views(styles@) =~= style_views(before).push((self.styles@[i - 1].code@, self.styles@[i - 1].scoped)));
            }
        }
        assert(self.styles@.take(self.styles@.len() as int) =~= self.styles@);
        CompiledModule { script: self.script.clone(), styles, deps: crate::jetcrab::module::copy_strings(&self.deps) }
    }
}

/// The render function added as the first member of the default export.
pub open spec fn render_in_export(script: Seq<char>, render: Seq<char>) -> Seq<char> {
    replace_all(script, "export default {"@, "export default {\n  render: "@ + render + ","@)
}

/// Where the brace that closes an open one lies in `s`, scanning from `i`
/// with `depth` braces open.
pub open spec fn close_from(s: Seq<char>, i: int, depth: int) -> Option<int>
    decreases s.len() - i,
{
    if i < 0 || i >= s.len() {
        None
    } else if s[i] == '{' {
        close_from(s, i + 1, depth + 1)
    } else if s[i] == '}' {
        if depth - 1 == 0 {
            Some(i)
        } else {
            close_from(s, i + 1, depth - 1)
        }
    } else {
        close_from(s, i + 1, depth)
    }
}

/// A found closing brace lies at or after `i`.
proof fn lemma_close_from(s: Seq<char>, i: int, depth: int)
    ensures
        close_from(s, i, depth) matches Some(e) ==> i <= e < s.len() && s[e] == '}',
    decreases s.len() - i,
{
    if 0 <= i < s.len() {
        if s[i] == '{' {
            lemma_close_from(s, i + 1, depth + 1);
        } else if s[i] == '}' {
            if depth - 1 != 0 {
                lemma_close_from(s, i + 1, depth - 1);
            }
        } else {
            lemma_close_from(s, i + 1, depth);
        }
    }
}

/// `s` without a leading semicolon.
pub open spec fn skip_semicolon(s: Seq<char>) -> Seq<char> {
    if s.len() > 0 && s[0] == ';' {
        s.drop_first()
    } else {
        s
    }
}

/// The script with the render function returned from `setup`: the last
/// `return { ... };` becomes `return <render>`, so that the render function
/// sees the locals of `setup`. Without such a statement, or without the brace
/// that closes it, the render function goes into the default export.
pub open spec fn inject_render(script: Seq<char>, render: Seq<char>) -> Seq<char> {
    match rfind(script, "return {"@) {
        None => render_in_export(script, render),
        Some(p) => {
            let after = script.subrange(p + 8, script.len() as int);
            match close_from(after, 0, 1) {
                Some(e) => script.subrange(0, p) + "return "@ + render + skip_semicolon(
                    after.subrange(e + 1, after.len() as int),
                ),
                None => render_in_export(script, render),
            }
        },
    }
}

/// Appends the characters of `v` to `out`.
pub(crate) fn append_chars(out: &mut Vec<char>, v: &Vec<char>)
    ensures
        final(out)@ == old(out)@ + v@,
{
    let mut i: usize = 0;
    while i < v.len()
        invariant
            i <= v@.len(),
            out@ == old(out)@ + v@.subrange(0, i as int),
        decreases v@.len() - i,
    {
        out.push(v[i]);
        i = i + 1;
        assert(out@ =~= old(out)@ + v@.subrange(0, i as int));
    }
    assert(v@.subrange(0, v@.len() as int) =~= v@);
}

/// The script with the render function returned from `setup`.
fn inject_render_into_setup_return(script: &str, render_fn: &str) -> (r: String)
    ensures
        r@ == inject_render(script@, render_fn@),
{
    let s = chars_of(script);
    let rv = chars_of(render_fn);
    let ret = chars_of("return {");
    proof {
        reveal_strlit("return {");
    }
    match rfind_exec(&s, &ret) {
        None => render_into_export(&s, &rv),
        Some(p) => {
            proof {
                crate::text::lemma_rfind_from(s@, ret@, s@.len() - ret@.len());
                assert(ret@ == "return {"@);
                assert(ret@.len() == 8);
                assert(crate::text::match_at(s@, ret@, p as int));
            }
            let slen = s.len();
            let start = p + 8;
            let ghost after = s@.subrange(start as int, s@.len() as int);
            let mut depth: u128 = 1;
            let mut i: usize = start;
            let mut end: Option<usize> = None;
            while i < s.len()
                invariant_except_break
                    start <= i <= s@.len(),
                    after == s@.subrange(start as int, s@.len() as int),
                    1 <= depth <= i - start + 1,
                    end is None,
                    close_from(after, 0, 1) == close_from(after, i - start, depth as int),
                ensures
                    after == s@.subrange(start as int, s@.len() as int),
                    match end {
                        Some(e) => start <= e < s@.len() && close_from(after, 0, 1) == Some(e - start),
                        None => close_from(after, 0, 1) is None,
                    },
                decreases s@.len() - i,
            {
                let c = s[i];
                assert(after[i - start] == c);
                if c == '{' {
                    depth = depth + 1;
                } else if c == '}' {
                    depth = depth - 1;
                    if depth == 0 {
                        end = Some(i);
                        break;
                    }
                }
                i = i + 1;
            }
            match end {
                Some(e) => {
                    let slen = s.len();
                    let mut out: Vec<char> = sub_chars(&s, 0, p);
                    let ret_sp = chars_of("return ");
                    append_chars(&mut out, &ret_sp);
                    append_chars(&mut out, &rv);
                    let mut k: usize = e + 1;
                    if k < s.len() && s[k] == ';' {
                        k = k + 1;
                    }
                    let tail = sub_chars(&s, k, s.len());
                    append_chars(&mut out, &tail);
                    proof {
                        let ac = after.subrange(e - start + 1, after.len() as int);
                        assert(ac =~= s@.subrange(e + 1, s@.len() as int));
                        if e + 1 < s@.len() && s@[e + 1] == ';' {
                            assert(skip_semicolon(ac) =~= s@.subrange(e + 2, s@.len() as int));
                        } else {
                            assert(skip_semicolon(ac) == ac);
                        }
                        assert(out@ =~= inject_render(script@, render_fn@));
                    }
                    string_of_all(&out)
                },
                None => render_into_export(&s, &rv),
            }
        },
    }
}

/// The render function added to the default export.
fn render_into_export(s: &Vec<char>, rv: &Vec<char>) -> (r: String)
    ensures
        r@ == render_in_export(s@, rv@),
{
    let pat = chars_of("export default {");
    let mut rep = chars_of("export default {\n  render: ");
    append_chars(&mut rep, &rv);
    let comma = chars_of(",");
    append_chars(&mut rep, &comma);
    proof {
        reveal_strlit("export default {");
        assert(pat@.len() > 0);
    }
    let out = replace_exec(s, &pat, &rep);
    string_of_all(&out)
}

/// The script of a component joined with its render function, as a
/// component compiled from a single file gets it: with no script (or an
/// empty default export) a default export holding just the render function;
/// with `export default {` the render function returned from `setup`; with
/// another default export, an object with the render function before it;
/// without one, an export spreading the script. An import of `h` from
/// `vue` is added unless there is one. Without a render function the script
/// stays as it is.
pub open spec fn with_render(script: Seq<char>, render: Seq<char>) -> Seq<char> {
    if render.len() == 0 {
        script
    } else {
        let joined = if script.len() == 0 || trim(script) == "export default {}"@ {
            "export default {\n  render: "@ + render + "\n}"@
        } else if contains(script, "export default {"@) {
            inject_render(script, render)
        } else if contains(script, "export default"@) {
            "{\n  render: "@ + render + "\n}\n"@ + script
        } else {
            "export default {\n  render: "@ + render + ",\n  ..."@ + script + "\n}"@
        };
        if !contains(joined, "import { h }"@) && !contains(joined, "import {h}"@) {
            "import { h } from 'vue';\n"@ + joined
        } else {
            joined
        }
    }
}

/// Whether `p` occurs in `s`.
fn holds_text(s: &Vec<char>, p: &str) -> (r: bool)
    ensures
        r == contains(s@, p@),
{
    let pv = chars_of(p);
    find_exec(s, &pv).is_some()
}

/// The script joined with the render function.
fn join_render(script: &str, render_fn: &str) -> (r: String)
    ensures
        r@ == with_render(script@, render_fn@),
{
    let s = chars_of(script);
    let rv = chars_of(render_fn);
    if rv.len() == 0 {
        return owned(script);
    }
    let (a, b) = trim_bounds(&s, 0, s.len());
    assert(s@.subrange(0, s@.len() as int) =~= s@);
    let t = sub_chars(&s, a, b);
    let empty_export = chars_of("export default {}");
    let joined: Vec<char> = if s.len() == 0 || seq_eq(&t, &empty_export) {
        let mut j = chars_of("export default {\n  render: ");
        append_chars(&mut j, &rv);
        let close = chars_of("\n}");
        append_chars(&mut j, &close);
        j
    } else if holds_text(&s, "export default {") {
        let inj = inject_render_into_setup_return(script, render_fn);
        chars_of(inj.as_str())
    } else if holds_text(&s, "export default") {
        let mut j = chars_of("{\n  render: ");
        append_chars(&mut j, &rv);
        let mid = chars_of("\n}\n");
        append_chars(&mut j, &mid);
        append_chars(&mut j, &s);
        j
    } else {
        let mut j = chars_of("export default {\n  render: ");
        append_chars(&mut j, &rv);
        let mid = chars_of(",\n  ...");
        append_chars(&mut j, &mid);
        append_chars(&mut j, &s);
        let close = chars_of("\n}");
        append_chars(&mut j, &close);
        j
    };
    if !holds_text(&joined, "import { h }") && !holds_text(&joined, "import {h}") {
        let mut out = chars_of("import { h } from 'vue';\n");
        append_chars(&mut out, &joined);
        string_of_all(&out)
    } else {
        string_of_all(&joined)
    }
}

/// The module imported on a trimmed line that starts with `import `: the
/// text between its first and last single quote.
pub open spec fn static_import(t: Seq<char>) -> Option<Seq<char>> {
    if starts_with(t, "import "@) {
        match find(t, seq!['\'']) {
            Some(a) => match rfind(t, seq!['\'']) {
                Some(b) => if a < b {
                    Some(t.subrange(a + 1, b))
                } else {
                    None
                },
                None => None,
            },
            None => None,
        }
    } else {
        None
    }
}

/// The module loaded by a dynamic `import(` on a trimmed line: the text
/// from its first single quote to the next.
pub open spec fn dynamic_import(t: Seq<char>) -> Option<Seq<char>> {
    if contains(t, "import("@) {
        match find(t, seq!['\'']) {
            Some(a) => match find(t.subrange(a + 1, t.len() as int), seq!['\'']) {
                Some(e) => Some(t.subrange(a + 1, a + 1 + e)),
                None => None,
            },
            None => None,
        }
    } else {
        None
    }
}

/// The imports on the first `k` lines.
pub open spec fn script_deps_upto(ls: Seq<Seq<char>>, k: int) -> Seq<Seq<char>>
    decreases k,
{
    if k <= 0 {
        Seq::empty()
    } else {
        let t = trim(ls[k - 1]);
        script_deps_upto(ls, k - 1) + opt_seq(static_import(t)) + opt_seq(dynamic_import(t))
    }
}

/// The modules a script imports, line by line.
pub open spec fn script_deps(script: Seq<char>) -> Seq<Seq<char>> {
    script_deps_upto(lines(script), lines(script).len() as int)
}

/// The imports on one trimmed line.
fn line_imports(t: &Vec<char>, deps: &mut Vec<String>)
    ensures
        str_views(final(deps)@) == str_views(old(deps)@) + opt_seq(static_import(t@)) + opt_seq(dynamic_import(t@)),
{
    let quote: Vec<char> = vec!['\''];
    assert(quote@ =~= seq!['\'']);
    let ghost d0 = str_views(deps@);
    let kw = chars_of("import ");
    if starts_with_exec(t, &kw) {
        match find_exec(t, &quote) {
            Some(a) => {
                proof {
                    lemma_find_from(t@, quote@, 0);
                }
                match rfind_exec(t, &quote) {
                    Some(b) => {
                        proof {
                            crate::text::lemma_rfind_from(t@, quote@, t@.len() - 1);
                        }
                        if a < b {
                            deps.push(string_of(t, a + 1, b));
                        }
                    },
                    None => {},
                }
            },
            None => {},
        }
    }
    let ghost d1 = str_views(deps@);
    assert(d1 =~= d0 + opt_seq(static_import(t@)));
    let dyn_kw = chars_of("import(");
    if find_exec(t, &dyn_kw).is_some() {
        match find_exec(t, &quote) {
            Some(a) => {
                proof {
                    lemma_find_from(t@, quote@, 0);
                    assert(crate::text::match_at(t@, quote@, a as int));
                    assert(a + 1 <= t@.len());
                }
                let tlen = t.len();
                let rest = sub_chars(t, a + 1, t.len());
                match find_exec(&rest, &quote) {
                    Some(e) => {
                        proof {
                            lemma_find_from(rest@, quote@, 0);
                        }
                        deps.push(string_of(t, a + 1, a + 1 + e));
                    },
                    None => {},
                }
            },
            None => {},
        }
    }
    assert(str_views(deps@) =~= d1 + opt_seq(dynamic_import(t@)));
}

/// The modules a script imports: on each line starting with `import `, the
/// text between the first and last single quote; on each line with a
/// dynamic `import(`, the text in the first pair of single quotes.
pub fn parse_dependencies(script: &str) -> (r: Result<Vec<String>, String>)
    ensures
        r matches Ok(v) && str_views(v@) == script_deps(script@),
{
    let cs = chars_of(script);
    let ranges = line_ranges(&cs);
    let mut deps: Vec<String> = Vec::new();
    let mut i: usize = 0;
    while i < ranges.len()
        invariant
            i <= ranges@.len(),
            cs@ == script@,
            pieces(cs@, ranges@) == lines(script@),
            valid_ranges(cs@, ranges@),
            str_views(deps@) == script_deps_upto(lines(script@), i as int),
        decreases ranges@.len() - i,
    {
        let (a, b) = ranges[i];
        let (x, y) = trim_bounds(&cs, a, b);
        proof {
            assert(pieces(cs@, ranges@)[i as int] == cs@.subrange(a as int, b as int));
        }
        let t = sub_chars(&cs, x, y);
        line_imports(&t, &mut deps);
        i = i + 1;
    }
    Ok(deps)
}

/// A component compiled from its parts: the script joined with the render
/// function, the style blocks, and the modules the joined script imports.
pub fn compile_parsed_sfc(script: &str, render_fn: &str, styles: Vec<StyleBlock>) -> (r: CompiledModule)
    ensures
        r.script@ == with_render(script@, render_fn@),
        r.styles == styles,
        str_views(r.deps@) == script_deps(r.script@),
{
    let joined = join_render(script, render_fn);
    let deps = match parse_dependencies(joined.as_str()) {
        Ok(d) => d,
        Err(_) => Vec::new(),
    };
    CompiledModule { script: joined, styles, deps }
}


/// `path` with each `\` made `/` and each `/./` made `/`.
pub open spec fn normalize(path: Seq<char>) -> Seq<char> {
    replace_all(replace_all(path, seq!['\\'], seq!['/']), "/./"@, seq!['/'])
}

/// The path normalized.
fn normalize_path(path: &Vec<char>) -> (r: Vec<char>)
    ensures
        r@ == normalize(path@),
{
    let back: Vec<char> = vec!['\\'];
    let slash: Vec<char> = vec!['/'];
    let dot = chars_of("/./");
    proof {
        reveal_strlit("/./");
        assert(back@ =~= seq!['\\']);
        assert(slash@ =~= seq!['/']);
    }
    let a = replace_exec(path, &back, &slash);
    replace_exec(&a, &dot, &slash)
}

/// `rel` joined to `base` as `Path::join` does on Unix: an absolute `rel`
/// replaces `base`; otherwise a separator is put between them unless `base`
/// is empty or ends with one.
pub open spec fn join_unix(base: Seq<char>, rel: Seq<char>) -> Seq<char> {
    if starts_with(rel, "/"@) {
        rel
    } else if base.len() == 0 || base.last() == '/' {
        base + rel
    } else {
        base + seq!['/'] + rel
    }
}

/// `rel` joined to `base`.
pub(crate) fn join_unix_exec(base: &Vec<char>, rel: &Vec<char>) -> (r: Vec<char>)
    ensures
        r@ == join_unix(base@, rel@),
{
    let slash: Vec<char> = vec!['/'];
    proof {
        reveal_strlit("/");
        assert(slash@ =~= "/"@);
    }
    if starts_with_exec(rel, &slash) {
        let mut r: Vec<char> = Vec::new();
        append_chars(&mut r, rel);
        assert(r@ =~= rel@);
        r
    } else if base.len() == 0 || base[base.len() - 1] == '/' {
        let mut r: Vec<char> = Vec::new();
        append_chars(&mut r, base);
        append_chars(&mut r, rel);
        assert(r@ =~= base@ + rel@);
        r
    } else {
        let mut r: Vec<char> = Vec::new();
        append_chars(&mut r, base);
        r.push('/');
        append_chars(&mut r, rel);
        assert(r@ =~= base@ + seq!['/'] + rel@);
        r
    }
}

/// The directory that holds a path, as `Path::parent` gives it.
pub uninterp spec fn parent_of(p: Seq<char>) -> Option<Seq<char>>;

/// Calls `Path::parent` on `p`: the path without its last component, or
/// `None` for a root or an empty path; a function of the path alone.
#[verifier::external_body]
pub(crate) fn path_parent(p: &str) -> (r: Option<String>)
    ensures
        opt_str(r) == parent_of(p@),
{
    match std::path::Path::new(p).parent() {
        Some(d) => Some(d.to_string_lossy().into_owned()),
        None => None,
    }
}

/// Whether an import names a path rather than a package.
pub open spec fn is_path_import(import_path: Seq<char>) -> bool {
    starts_with(import_path, "."@) || starts_with(import_path, "/"@)
}

/// The path an import names, relative to the directory of the importer and
/// normalized; `None` for a package, or when the importer has no parent.
pub open spec fn import_base(import_path: Seq<char>, importer: Seq<char>) -> Option<Seq<char>> {
    if is_path_import(import_path) {
        match parent_of(importer) {
            Some(d) => Some(normalize(join_unix(d, import_path))),
            None => None,
        }
    } else {
        None
    }
}

/// The extensions tried for an import without one.
pub open spec fn module_exts() -> Seq<Seq<char>> {
    seq![".vue"@, ".ts"@, ".tsx"@, ".js"@, ".jsx"@, ".mjs"@]
}

/// The index files tried for an import of a directory.
pub open spec fn index_files() -> Seq<Seq<char>> {
    seq!["index.ts"@, "index.js"@, "index.tsx"@, "index.jsx"@, "index.mjs"@]
}

/// The base with each extension.
pub open spec fn with_exts(b: Seq<char>) -> Seq<Seq<char>> {
    module_exts().map_values(|e: Seq<char>| b + e)
}

/// The index files under the base.
pub open spec fn with_index(b: Seq<char>) -> Seq<Seq<char>> {
    index_files().map_values(|f: Seq<char>| b + seq!['/'] + f)
}

/// The first of `cands`, from `i` on, that is among `files`.
pub open spec fn first_present(cands: Seq<Seq<char>>, files: Seq<Seq<char>>, i: int) -> Option<Seq<char>>
    decreases cands.len() - i,
{
    if i < 0 || i >= cands.len() {
        None
    } else if files.contains(cands[i]) {
        Some(cands[i])
    } else {
        first_present(cands, files, i + 1)
    }
}

/// What an import resolves to, given the paths that are files and those
/// that are directories: a package name stays as it is; a path is the
/// file itself, else the first file with an extension added, else for a
/// directory its first index file, else the path with `.vue` added unless it
/// ends with `.vue` or `.js`.
pub open spec fn resolve_spec(
    import_path: Seq<char>,
    importer: Seq<char>,
    files: Seq<Seq<char>>,
    dirs: Seq<Seq<char>>,
) -> Seq<char> {
    match import_base(import_path, importer) {
        None => import_path,
        Some(b) => if files.contains(b) {
            b
        } else {
            match first_present(with_exts(b), files, 0) {
                Some(x) => x,
                None => match (if dirs.contains(b) {
                    first_present(with_index(b), files, 0)
                } else {
                    None
                }) {
                    Some(x) => x,
                    None => if !ends_with(b, ".vue"@) && !ends_with(b, ".js"@) {
                        b + ".vue"@
                    } else {
                        b
                    },
                },
            }
        },
    }
}

/// The path an import names, if it names one.
fn import_base_exec(import_path: &str, importer: &str) -> (r: Option<Vec<char>>)
    ensures
        match r {
            Some(v) => import_base(import_path@, importer@) == Some(v@),
            None => import_base(import_path@, importer@) is None,
        },
{
    let ip = chars_of(import_path);
    let dot = chars_of(".");
    let slash = chars_of("/");
    if starts_with_exec(&ip, &dot) || starts_with_exec(&ip, &slash) {
        match path_parent(importer) {
            Some(d) => {
                let dv = chars_of(d.as_str());
                let joined = join_unix_exec(&dv, &ip);
                Some(normalize_path(&joined))
            },
            None => None,
        }
    } else {
        None
    }
}

/// Whether `files` holds `x`.
fn holds_path(files: &[String], x: &Vec<char>) -> (r: bool)
    ensures
        r == str_views(files@).contains(x@),
{
    let mut i: usize = 0;
    while i < files.len()
        invariant
            i <= files@.len(),
            forall|j: int| 0 <= j < i ==> files@[j]@ != x@,
        decreases files@.len() - i,
    {
        let f = chars_of(files[i].as_str());
        if seq_eq(&f, x) {
            assert(str_views(files@)[i as int] == x@);
            return true;
        }
        i = i + 1;
    }
    proof {
        if str_views(files@).contains(x@) {
            let j = choose|j: int| 0 <= j < str_views(files@).len() && str_views(files@)[j] == x@;
            assert(files@[j]@ == x@);
        }
    }
    false
}

/// The extensions tried, in order.
fn ext_list() -> (r: Vec<&'static str>)
    ensures
        r@.map_values(|s: &str| s@) == module_exts(),
{
    let r = vec![".vue", ".ts", ".tsx", ".js", ".jsx", ".mjs"];
    assert(r@.map_values(|s: &str| s@) =~= module_exts());
    r
}

/// The index files tried, in order.
fn index_list() -> (r: Vec<&'static str>)
    ensures
        r@.map_values(|s: &str| s@) == index_files(),
{
    let r = vec!["index.ts", "index.js", "index.tsx", "index.jsx", "index.mjs"];
    assert(r@.map_values(|s: &str| s@) =~= index_files());
    r
}

/// Each name of `names` appended to `b` (after a `/` when `sep`).
fn candidates(b: &Vec<char>, names: &Vec<&'static str>, sep: bool) -> (r: Vec<Vec<char>>)
    ensures
        r@.len() == names@.len(),
        forall|i: int| 0 <= i < names@.len() ==> (#[trigger] r@[i])@ == (if sep {
            b@ + seq!['/'] + names@[i]@
        } else {
            b@ + names@[i]@
        }),
{
    let mut r: Vec<Vec<char>> = Vec::new();
    let mut i: usize = 0;
    while i < names.len()
        invariant
            i <= names@.len(),
            r@.len() == i,
            forall|k: int| 0 <= k < i ==> (#[trigger] r@[k])@ == (if sep {
                b@ + seq!['/'] + names@[k]@
            } else {
                b@ + names@[k]@
            }),
        decreases names@.len() - i,
    {
        let mut c: Vec<char> = Vec::new();
        append_chars(&mut c, b);
        if sep {
            c.push('/');
        }
        let n = chars_of(names[i]);
        append_chars(&mut c, &n);
        proof {
            if sep {
                assert(c@ =~= b@ + seq!['/'] + names@[i as int]@);
            } else {
                assert(c@ =~= b@ + names@[i as int]@);
            }
        }
        r.push(c);
        i = i + 1;
    }
    r
}

/// The first candidate that is a file.
fn first_file(cands: &Vec<Vec<char>>, files: &[String], Ghost(spec_cands): Ghost<Seq<Seq<char>>>) -> (r: Option<usize>)
    requires
        spec_cands.len() == cands@.len(),
        forall|i: int| 0 <= i < cands@.len() ==> (#[trigger] cands@[i])@ == spec_cands[i],
    ensures
        match r {
            Some(i) => i < cands@.len() && first_present(spec_cands, str_views(files@), 0) == Some(cands@[i as int]@),
            None => first_present(spec_cands, str_views(files@), 0) is None,
        },
{
    let mut i: usize = 0;
    while i < cands.len()
        invariant
            i <= cands@.len(),
            spec_cands.len() == cands@.len(),
            forall|k: int| 0 <= k < cands@.len() ==> (#[trigger] cands@[k])@ == spec_cands[k],
            first_present(spec_cands, str_views(files@), 0) == first_present(spec_cands, str_views(files@), i as int),
        decreases cands@.len() - i,
    {
        if holds_path(files, &cands[i]) {
            return Some(i);
        }
        i = i + 1;
    }
    None
}

/// Resolves an import of `importer`, given the paths among the candidates
/// that are files and those that are directories (see
/// `resolution_candidates`).
pub fn resolve_module(import_path: &str, importer: &str, files: &[String], dirs: &[String]) -> (r: Result<String, String>)
    ensures
        r matches Ok(s) && s@ == resolve_spec(import_path@, importer@, str_views(files@), str_views(dirs@)),
{
    match import_base_exec(import_path, importer) {
        None => Ok(owned(import_path)),
        Some(b) => {
            if holds_path(files, &b) {
                return Ok(string_of_all(&b));
            }
            let exts = ext_list();
            let ec = candidates(&b, &exts, false);
            proof {
                assert forall|i: int| 0 <= i < ec@.len() implies (#[trigger] ec@[i])@ == with_exts(b@)[i] by {
                    assert(exts@.map_values(|s: &str| s@)[i] == exts@[i]@);
                }
            }
            match first_file(&ec, files, Ghost(with_exts(b@))) {
                Some(i) => {
                    return Ok(string_of_all(&ec[i]));
                },
                None => {},
            }
            if holds_path(dirs, &b) {
                let idx = index_list();
                let ic = candidates(&b, &idx, true);
                proof {
                    assert forall|i: int| 0 <= i < ic@.len() implies (#[trigger] ic@[i])@ == with_index(b@)[i] by {
                        assert(idx@.map_values(|s: &str| s@)[i] == idx@[i]@);
                    }
                }
                match first_file(&ic, files, Ghost(with_index(b@))) {
                    Some(i) => {
                        return Ok(string_of_all(&ic[i]));
                    },
                    None => {},
                }
            }
            let vue = chars_of(".vue");
            let js = chars_of(".js");
            if !ends_with_exec(&b, &vue) && !ends_with_exec(&b, &js) {
                let mut out: Vec<char> = Vec::new();
                append_chars(&mut out, &b);
                append_chars(&mut out, &vue);
                Ok(string_of_all(&out))
            } else {
                Ok(string_of_all(&b))
            }
        },
    }
}

/// The paths whose kind decides where an import resolves: the path it
/// names, that path with each extension, and its index files; none for a
/// package.
pub fn resolution_candidates(import_path: &str, importer: &str) -> (r: Vec<String>)
    ensures
        match import_base(import_path@, importer@) {
            Some(b) => str_views(r@) == seq![b] + with_exts(b) + with_index(b),
            None => r@.len() == 0,
        },
{
    match import_base_exec(import_path, importer) {
        None => Vec::new(),
        Some(b) => {
            let exts = ext_list();
            let idx = index_list();
            let ec = candidates(&b, &exts, false);
            let ic = candidates(&b, &idx, true);
            let mut out: Vec<String> = Vec::new();
            out.push(string_of_all(&b));
            let mut i: usize = 0;
            while i < ec.len()
                invariant
                    i <= ec@.len(),
                    str_views(out@) == seq![b@] + ec@.take(i as int).map_values(|v: Vec<char>| v@),
                decreases ec@.len() - i,
            {
                let ghost before = out@;
                out.push(string_of_all(&ec[i]));
                assert(str_views(out@) =~= str_views(before).push(ec@[i as int]@));
                assert(ec@.take(i + 1).map_values(|v: Vec<char>| v@) =~= ec@.take(i as int).map_values(|v: Vec<char>| v@).push(ec@[i as int]@));
                i = i + 1;
                assert(str_views(out@) =~= seq![b@] + ec@.take(i as int).map_values(|v: Vec<char>| v@));
            }
            let ghost mid = str_views(out@);
            let mut k: usize = 0;
            while k < ic.len()
                invariant
                    k <= ic@.len(),
                    str_views(out@) == mid + ic@.take(k as int).map_values(|v: Vec<char>| v@),
                decreases ic@.len() - k,
            {
                let ghost before = out@;
                out.push(string_of_all(&ic[k]));
                assert(str_views(out@) =~= str_views(before).push(ic@[k as int]@));
                assert(ic@.take(k + 1).map_values(|v: Vec<char>| v@) =~= ic@.take(k as int).map_values(|v: Vec<char>| v@).push(ic@[k as int]@));
                k = k + 1;
                assert(str_views(out@) =~= mid + ic@.take(k as int).map_values(|v: Vec<char>| v@));
            }
            proof {
                assert(ec@.take(ec@.len() as int) =~= ec@);
                assert(ic@.take(ic@.len() as int) =~= ic@);
                assert(ec@.map_values(|v: Vec<char>| v@) =~= with_exts(b@)) by {
                    assert forall|i: int| 0 <= i < ec@.len() implies ec@[i]@ == with_exts(b@)[i] by {
                        assert(exts@.map_values(|s: &str| s@)[i] == exts@[i]@);
                    }
                }
                assert(ic@.map_values(|v: Vec<char>| v@) =~= with_index(b@)) by {
                    assert forall|i: int| 0 <= i < ic@.len() implies ic@[i]@ == with_index(b@)[i] by {
                        assert(idx@.map_values(|s: &str| s@)[i] == idx@[i]@);
                    }
                }
                assert(str_views(out@) =~= seq![b@] + with_exts(b@) + with_index(b@));
            }
            out
        },
    }
}

} // verus!
