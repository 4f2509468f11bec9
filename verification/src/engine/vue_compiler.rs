//! Compiling a Vue project module by module: what each module imports,
//! how each kind of module becomes a compiled module, the cache of compiled
//! modules, and the packages found under `node_modules`.
use vstd::prelude::*;
use vstd::string::StringExecFns;
use std::path::{Path, PathBuf};
use crate::strmap::StrMap;
use crate::text::{
    chars_of, contains, ends_with, ends_with_exec, find, find_exec, lines, line_ranges, lemma_find_from, owned,
    pieces, rfind, starts_with, starts_with_exec, string_of, string_of_all, sub_chars, trim, trim_bounds, trimmed,
    valid_ranges,
};
use crate::jetcrab::module::{str_views, opt_seq, copy_path};
use crate::jetcrab::cpm::{join_path, joined};
use crate::jetcrab::esm::opt_str;
use crate::engine::dependency_scanner::{from_clause, from_clause_exec, from_clause_ends_early, quoted_from, quoted_from_exec, lemma_rfind_last};
use crate::engine::sfc_compiler::{CompiledModule, StyleBlock, module_copied, style_views};

verus! {

/// What the compiler for a module's kind gave: compiled text (TypeScript
/// to JavaScript, a style sheet to CSS), a compiled component, or an error.
/// A plain script needs none.
#[derive(Debug)]
pub enum CompilerOutput {
    /// Compiled text.
    Text(String),
    /// A compiled component.
    Component(CompiledModule),
    /// The compiler's error.
    Failed(String),
}

/// A package found under `node_modules`.
#[derive(Debug, Clone)]
pub struct PackageInfo {
    /// Package name.
    pub name: String,
    /// Version.
    pub version: String,
    /// Main entry.
    pub main: String,
    /// ES module entry.
    pub module: Option<String>,
    /// Style sheet.
    pub style: Option<String>,
    /// Type definitions.
    pub types: Option<String>,
}

/// The outcome of compiling a project.
#[derive(Debug)]
pub struct CompilationResult {
    /// Compiled modules by path.
    pub compiled_modules: StrMap<CompiledModule>,
    /// Packages by name.
    pub npm_packages: StrMap<PackageInfo>,
    /// Modules in the order they were compiled.
    pub compilation_order: Vec<String>,
    /// The entry file.
    pub entry_file: String,
    /// Styles for the whole page.
    pub global_styles: Vec<StyleBlock>,
}

/// The path an `import ... from` line names: after `from '` up to the last
/// single quote, else after `from "` up to the last double quote.
pub open spec fn string_from_import(line: Seq<char>) -> Option<Seq<char>> {
    match from_clause(line, "from '"@, '\'') {
        Some(x) => Some(x),
        None => from_clause(line, "from \""@, '"'),
    }
}

/// A `from` clause that ends at its opening quote, with no quote after it.
pub open spec fn from_clause_malformed(line: Seq<char>) -> bool {
    match find(line, "from '"@) {
        Some(s) => rfind(line, seq!['\'']) == Some(s + 5),
        None => match find(line, "from \""@) {
            Some(s) => rfind(line, seq!['"']) == Some(s + 5),
            None => false,
        },
    }
}

/// A static import line.
pub open spec fn is_static_import(t: Seq<char>) -> bool {
    starts_with(t, "import "@) && contains(t, " from "@)
}

/// The modules a trimmed line imports: by an `import ... from` line, by a
/// dynamic `import('...')` and by `require('...')`, in that order.
pub open spec fn line_imports(t: Seq<char>) -> Seq<Seq<char>> {
    (if is_static_import(t) {
        opt_seq(string_from_import(t))
    } else {
        Seq::empty()
    }) + (if contains(t, "import("@) {
        match find(t, "import('"@) {
            Some(s) => opt_seq(quoted_from(t, s + 8, '\'')),
            None => Seq::empty(),
        }
    } else {
        Seq::empty()
    }) + (if contains(t, "require("@) {
        match find(t, "require('"@) {
            Some(s) => opt_seq(quoted_from(t, s + 9, '\'')),
            None => Seq::empty(),
        }
    } else {
        Seq::empty()
    })
}

/// The modules imported on the first `k` lines.
pub open spec fn imports_upto(ls: Seq<Seq<char>>, k: int) -> Seq<Seq<char>>
    decreases k,
{
    if k <= 0 {
        Seq::empty()
    } else {
        imports_upto(ls, k - 1) + line_imports(trim(ls[k - 1]))
    }
}

/// No static import line of the script has a malformed `from` clause.
pub open spec fn imports_well_formed(script: Seq<char>) -> bool {
    forall|i: int|
        0 <= i < lines(script).len() && is_static_import(trim(#[trigger] lines(script)[i])) ==> !from_clause_malformed(
            trim(lines(script)[i]),
        )
}

/// A line that imports only types (`import type ...`).
pub open spec fn is_type_import(t: Seq<char>) -> bool {
    starts_with(t, "import type "@) || contains(t, "import type{"@)
}

/// No type-only import line of the script has a malformed `from` clause.
pub open spec fn type_imports_well_formed(script: Seq<char>) -> bool {
    forall|i: int|
        0 <= i < lines(script).len() && is_type_import(trim(#[trigger] lines(script)[i])) ==> !from_clause_malformed(
            trim(lines(script)[i]),
        )
}

/// `found` extended by the modules that the first `k` lines import only
/// types from, each not found before.
pub open spec fn with_type_imports(ls: Seq<Seq<char>>, k: int, found: Seq<Seq<char>>) -> Seq<Seq<char>>
    decreases k,
{
    if k <= 0 {
        found
    } else {
        let prev = with_type_imports(ls, k - 1, found);
        let t = trim(ls[k - 1]);
        if is_type_import(t) && string_from_import(t) is Some && !prev.contains(string_from_import(t)->0) {
            prev.push(string_from_import(t)->0)
        } else {
            prev
        }
    }
}

/// `p` without every leading `./`.
pub open spec fn strip_dot_slash(p: Seq<char>) -> Seq<char>
    decreases p.len(),
{
    if p.len() >= 2 && p[0] == '.' && p[1] == '/' {
        strip_dot_slash(p.subrange(2, p.len() as int))
    } else {
        p
    }
}

/// The part of a path below the project root: without leading `./`, and
/// without one leading `/`.
pub open spec fn root_relative(p: Seq<char>) -> Seq<char> {
    let q = strip_dot_slash(p);
    if q.len() > 0 && q[0] == '/' {
        q.drop_first()
    } else {
        q
    }
}

/// How a module is compiled, by its extension.
#[derive(Debug, Clone, Copy, PartialEq, Eq, Structural)]
pub enum ModuleKind {
    /// A single-file component.
    Vue,
    /// TypeScript.
    TypeScript,
    /// A style sheet.
    Css,
    /// SCSS or Sass.
    Scss,
    /// Less.
    Less,
    /// JavaScript, taken as it is.
    Script,
}

/// The kind of module a path names.
pub open spec fn kind_of(path: Seq<char>) -> ModuleKind {
    if ends_with(path, ".vue"@) {
        ModuleKind::Vue
    } else if ends_with(path, ".ts"@) || ends_with(path, ".tsx"@) {
        ModuleKind::TypeScript
    } else if ends_with(path, ".css"@) {
        ModuleKind::Css
    } else if ends_with(path, ".scss"@) || ends_with(path, ".sass"@) {
        ModuleKind::Scss
    } else if ends_with(path, ".less"@) {
        ModuleKind::Less
    } else {
        ModuleKind::Script
    }
}

/// A path ending in `.js` is a plain script.
pub proof fn lemma_js_is_script(p: Seq<char>)
    requires
        ends_with(p, ".js"@),
    ensures
        kind_of(p) == ModuleKind::Script,
{
    reveal_strlit(".js");
    reveal_strlit(".vue"); reveal_strlit(".ts"); reveal_strlit(".tsx"); reveal_strlit(".css");
    reveal_strlit(".scss"); reveal_strlit(".sass"); reveal_strlit(".less");
    let n = p.len() as int;
    assert(p[n - 1] == 's' && p[n - 2] == 'j' && p[n - 3] == '.') by {
        assert(p.subrange(n - 3, n)[2] == p[n - 1]);
        assert(p.subrange(n - 3, n)[1] == p[n - 2]);
        assert(p.subrange(n - 3, n)[0] == p[n - 3]);
    }
    if ends_with(p, ".vue"@) { assert(p.subrange(n - 4, n)[3] == p[n - 1]); }
    if ends_with(p, ".ts"@) { assert(p.subrange(n - 3, n)[1] == p[n - 2]); }
    if ends_with(p, ".tsx"@) { assert(p.subrange(n - 4, n)[3] == p[n - 1]); }
    if ends_with(p, ".css"@) { assert(p.subrange(n - 4, n)[2] == p[n - 2]); }
    if ends_with(p, ".scss"@) { assert(p.subrange(n - 5, n)[3] == p[n - 2]); }
    if ends_with(p, ".sass"@) { assert(p.subrange(n - 5, n)[3] == p[n - 2]); }
    if ends_with(p, ".less"@) { assert(p.subrange(n - 5, n)[3] == p[n - 2]); }
}
/// A path ending in `.ts` or `.tsx` is a TypeScript module.
pub proof fn lemma_ts_is_typescript(p: Seq<char>)
    requires
        ends_with(p, ".ts"@) || ends_with(p, ".tsx"@),
    ensures
        kind_of(p) == ModuleKind::TypeScript,
{
    reveal_strlit(".vue"); reveal_strlit(".ts"); reveal_strlit(".tsx");
    let n = p.len() as int;
    if ends_with(p, ".vue"@) {
        assert(p.subrange(n - 4, n)[3] == p[n - 1]);
        assert(p[n - 1] == 'e');
        if ends_with(p, ".ts"@) {
            assert(p.subrange(n - 3, n)[2] == p[n - 1]);
        } else {
            assert(p.subrange(n - 4, n)[3] == p[n - 1]);
        }
    }
}

/// A path ending in `.css` is a style sheet.
pub proof fn lemma_css_is_css(p: Seq<char>)
    requires
        ends_with(p, ".css"@),
    ensures
        kind_of(p) == ModuleKind::Css,
{
    reveal_strlit(".css"); reveal_strlit(".vue"); reveal_strlit(".ts"); reveal_strlit(".tsx");
    let n = p.len() as int;
    assert(p.subrange(n - 4, n)[3] == p[n - 1]);
    assert(p.subrange(n - 4, n)[2] == p[n - 2]);
    if ends_with(p, ".vue"@) { assert(p.subrange(n - 4, n)[3] == p[n - 1]); }
    if ends_with(p, ".ts"@) { assert(p.subrange(n - 3, n)[1] == p[n - 2]); }
    if ends_with(p, ".tsx"@) { assert(p.subrange(n - 4, n)[3] == p[n - 1]); }
}

/// A path ending in `.scss` or `.sass` is an SCSS style sheet.
pub proof fn lemma_scss_is_scss(p: Seq<char>)
    requires
        ends_with(p, ".scss"@) || ends_with(p, ".sass"@),
    ensures
        kind_of(p) == ModuleKind::Scss,
{
    reveal_strlit(".scss"); reveal_strlit(".sass"); reveal_strlit(".css"); reveal_strlit(".vue");
    reveal_strlit(".ts"); reveal_strlit(".tsx");
    let n = p.len() as int;
    if ends_with(p, ".scss"@) {
        assert(p.subrange(n - 5, n)[4] == p[n - 1]);
        assert(p.subrange(n - 5, n)[3] == p[n - 2]);
        assert(p.subrange(n - 5, n)[1] == p[n - 4]);
    } else {
        assert(p.subrange(n - 5, n)[4] == p[n - 1]);
        assert(p.subrange(n - 5, n)[3] == p[n - 2]);
        assert(p.subrange(n - 5, n)[1] == p[n - 4]);
    }
    if ends_with(p, ".vue"@) { assert(p.subrange(n - 4, n)[3] == p[n - 1]); }
    if ends_with(p, ".ts"@) { assert(p.subrange(n - 3, n)[1] == p[n - 2]); }
    if ends_with(p, ".tsx"@) { assert(p.subrange(n - 4, n)[3] == p[n - 1]); }
    if ends_with(p, ".css"@) { assert(p.subrange(n - 4, n)[0] == p[n - 4]); }
}

/// A path ending in `.less` is a Less style sheet.
pub proof fn lemma_less_is_less(p: Seq<char>)
    requires
        ends_with(p, ".less"@),
    ensures
        kind_of(p) == ModuleKind::Less,
{
    reveal_strlit(".less"); reveal_strlit(".scss"); reveal_strlit(".sass"); reveal_strlit(".css");
    reveal_strlit(".vue"); reveal_strlit(".ts"); reveal_strlit(".tsx");
    let n = p.len() as int;
    assert(p.subrange(n - 5, n)[4] == p[n - 1]);
    assert(p.subrange(n - 5, n)[3] == p[n - 2]);
    assert(p.subrange(n - 5, n)[1] == p[n - 4]);
    assert(p.subrange(n - 5, n)[0] == p[n - 5]);
    if ends_with(p, ".vue"@) { assert(p.subrange(n - 4, n)[3] == p[n - 1]); }
    if ends_with(p, ".ts"@) { assert(p.subrange(n - 3, n)[1] == p[n - 2]); }
    if ends_with(p, ".tsx"@) { assert(p.subrange(n - 4, n)[3] == p[n - 1]); }
    if ends_with(p, ".css"@) { assert(p.subrange(n - 4, n)[0] == p[n - 4]); }
    if ends_with(p, ".scss"@) { assert(p.subrange(n - 5, n)[1] == p[n - 4]); }
    if ends_with(p, ".sass"@) { assert(p.subrange(n - 5, n)[1] == p[n - 4]); }
}

/// A path ending in `.vue` is a component.
pub proof fn lemma_vue_is_component(p: Seq<char>)
    requires
        ends_with(p, ".vue"@),
    ensures
        kind_of(p) == ModuleKind::Vue,
{
}

/// The script of a style module: a comment naming it and an empty export.
pub open spec fn style_module_script(kind: ModuleKind, path: Seq<char>) -> Seq<char> {
    let label = match kind {
        ModuleKind::Scss => "// SCSS module: "@,
        ModuleKind::Less => "// Less module: "@,
        _ => "// CSS module: "@,
    };
    label + path + "\nexport default {}"@
}

/// Whether a kind of module is a style sheet.
pub open spec fn is_style_kind(kind: ModuleKind) -> bool {
    kind == ModuleKind::Css || kind == ModuleKind::Scss || kind == ModuleKind::Less
}

/// The package by its parts.
pub open spec fn package_view(p: PackageInfo) -> (Seq<char>, Seq<char>, Seq<char>, Option<Seq<char>>, Option<Seq<char>>, Option<Seq<char>>) {
    (p.name@, p.version@, p.main@, opt_str(p.module), opt_str(p.style), opt_str(p.types))
}

/// A copy of an optional string.
fn copy_opt(o: &Option<String>) -> (r: Option<String>)
    ensures
        opt_str(r) == opt_str(*o),
{
    match o {
        Some(s) => Some(s.clone()),
        None => None,
    }
}

impl PackageInfo {
    /// A package by the fields of its manifest, each as a string when it is
    /// one: the name (else the name asked for), the version (else
    /// `unknown`), the main entry (else `index.js`), the module entry, the
    /// style sheet and the types (else the typings). Also returns the entry
    /// to follow: the module entry, else the main one.
    pub fn from_manifest(
        package_name: &str,
        name: Option<String>,
        version: Option<String>,
        main: Option<String>,
        module: Option<String>,
        style: Option<String>,
        types: Option<String>,
        typings: Option<String>,
    ) -> (r: (PackageInfo, String))
        ensures
            r.0.name@ == (match name {
                Some(n) => n@,
                None => package_name@,
            }),
            r.0.version@ == (match version {
                Some(v) => v@,
                None => "unknown"@,
            }),
            r.0.main@ == (match main {
                Some(m) => m@,
                None => "index.js"@,
            }),
            opt_str(r.0.module) == opt_str(module),
            opt_str(r.0.style) == opt_str(style),
            opt_str(r.0.types) == (match types {
                Some(t) => Some(t@),
                None => opt_str(typings),
            }),
            r.1@ == (match module {
                Some(m) => m@,
                None => r.0.main@,
            }),
    {
        let name = match name {
            Some(n) => n,
            None => owned(package_name),
        };
        let version = match version {
            Some(v) => v,
            None => owned("unknown"),
        };
        let main = match main {
            Some(m) => m,
            None => owned("index.js"),
        };
        let types = match types {
            Some(t) => Some(t),
            None => typings,
        };
        let entry = match &module {
            Some(m) => m.clone(),
            None => main.clone(),
        };
        (PackageInfo { name, version, main, module, style, types }, entry)
    }

    /// A copy.
    pub fn copy(&self) -> (r: Self)
        ensures
            package_view(r) == package_view(*self),
    {
        PackageInfo {
            name: self.name.clone(),
            version: self.version.clone(),
            main: self.main.clone(),
            module: copy_opt(&self.module),
            style: copy_opt(&self.style),
            types: copy_opt(&self.types),
        }
    }
}

/// Compiles a Vue project module by module.
#[derive(Debug)]
pub struct VueProjectCompiler {
    project_root: PathBuf,
    node_modules_path: PathBuf,
    compiled_cache: StrMap<CompiledModule>,
    compiled: Vec<String>,
    npm_packages: StrMap<PackageInfo>,
}

/// Whether `v` holds `s`.
fn strs_hold(v: &Vec<String>, s: &str) -> (r: bool)
    ensures
        r == str_views(v@).contains(s@),
{
    let mut i: usize = 0;
    while i < v.len()
        invariant
            i <= v@.len(),
            forall|j: int| 0 <= j < i ==> v@[j]@ != s@,
        decreases v@.len() - i,
    {
        if crate::text::str_eq(v[i].as_str(), s) {
            assert(str_views(v@)[i as int] == s@);
            return true;
        }
        i = i + 1;
    }
    proof {
        if str_views(v@).contains(s@) {
            let j = choose|j: int| 0 <= j < str_views(v@).len() && str_views(v@)[j] == s@;
            assert(v@[j]@ == s@);
        }
    }
    false
}

impl VueProjectCompiler {
    /// The compiled modules by path.
    pub closed spec fn cache(&self) -> Map<Seq<char>, CompiledModule> {
        self.compiled_cache@
    }

    /// The modules compiled so far.
    pub closed spec fn done(&self) -> Seq<Seq<char>> {
        str_views(self.compiled@)
    }

    /// The packages found, by name.
    pub closed spec fn packages(&self) -> Map<Seq<char>, PackageInfo> {
        self.npm_packages@
    }

    /// The project root.
    pub closed spec fn root(&self) -> PathBuf {
        self.project_root
    }

    /// The `node_modules` directory.
    pub closed spec fn modules_dir(&self) -> PathBuf {
        self.node_modules_path
    }

    /// No module is listed twice as compiled.
    #[verifier::type_invariant]
    closed spec fn compiler_inv(&self) -> bool {
        str_views(self.compiled@).no_duplicates()
    }

    /// A compiler for the project at `project_root`, with nothing compiled.
    pub fn new(project_root: PathBuf) -> (c: Self)
        ensures
            c.root() == project_root,
            c.modules_dir() == joined(project_root, "node_modules"@),
            c.cache() == Map::<Seq<char>, CompiledModule>::empty(),
            c.done().len() == 0,
            c.packages() == Map::<Seq<char>, PackageInfo>::empty(),
    {
        let node_modules_path = join_path(&project_root, "node_modules");
        let c = VueProjectCompiler {
            project_root,
            node_modules_path,
            compiled_cache: StrMap::new(),
            compiled: Vec::new(),
            npm_packages: StrMap::new(),
        };
        assert(str_views(c.compiled@) =~= Seq::<Seq<char>>::empty());
        c
    }

    /// The number of cached modules and of modules compiled.
    pub fn get_cache_stats(&self) -> (r: (usize, usize))
        ensures
            r.0 == self.cache().dom().len(),
            r.1 == self.done().to_set().len(),
    {
        proof {
            use_type_invariant(self);
            self.done().unique_seq_to_set();
        }
        (self.compiled_cache.len(), self.compiled.len())
    }

    /// The `node_modules` directory of the project.
    pub fn node_modules_path(&self) -> (r: &PathBuf)
        ensures
            *r == self.modules_dir(),
    {
        &self.node_modules_path
    }

    /// The path of a file of the project: `path` without leading `./` and
    /// without a leading `/`, joined to the project root.
    pub fn resolve_path(&self, path: &str) -> (r: Result<PathBuf, String>)
        ensures
            r == Ok::<PathBuf, String>(joined(self.root(), root_relative(path@))),
    {
        let rel = Self::root_relative_path(path);
        Ok(join_path(&self.project_root, rel.as_str()))
    }

    /// The part of a path below the project root.
    pub fn root_relative_path(path: &str) -> (r: String)
        ensures
            r@ == root_relative(path@),
    {
        let v = chars_of(path);
        let vlen = v.len();
        let mut i: usize = 0;
        assert(v@.subrange(0, v@.len() as int) =~= v@);
        while vlen - i >= 2 && v[i] == '.' && v[i + 1] == '/'
            invariant
                i <= vlen,
                vlen == v@.len(),
                strip_dot_slash(path@) == strip_dot_slash(v@.subrange(i as int, v@.len() as int)),
                v@ == path@,
            decreases vlen - i,
        {
            let ghost t = v@.subrange(i as int, v@.len() as int);
            assert(t.subrange(2, t.len() as int) =~= v@.subrange(i + 2, v@.len() as int));
            i = i + 2;
        }
        let ghost t = v@.subrange(i as int, v@.len() as int);
        assert(strip_dot_slash(t) == t);
        if i < vlen && v[i] == '/' {
            assert(t.drop_first() =~= v@.subrange(i + 1, v@.len() as int));
            string_of(&v, i + 1, vlen)
        } else {
            string_of(&v, i, vlen)
        }
    }

    /// Whether a line's `from` clause ends at its opening quote, which
    /// `extract_string_from_import` cannot read.
    pub fn is_malformed_from_clause(line: &str) -> (r: bool)
        ensures
            r == from_clause_malformed(line@),
    {
        let l = chars_of(line);
        from_clause_ends_early(&l)
    }

    /// The path an `import ... from` line names.
    pub fn extract_string_from_import(&self, line: &str) -> (r: Option<String>)
        requires
            !from_clause_malformed(line@),
        ensures
            match r {
                Some(x) => string_from_import(line@) == Some(x@),
                None => string_from_import(line@) is None,
            },
    {
        let l = chars_of(line);
        proof {
            reveal_strlit("from '");
            reveal_strlit("from \"");
        }
        match from_clause_exec(&l, "from '", '\'') {
            Some(x) => Some(x),
            None => {
                proof {
                    if find(line@, "from '"@) is Some {
                        let s = find(line@, "from '"@)->0;
                        lemma_find_from(line@, "from '"@, 0);
                        assert(crate::text::match_at(line@, seq!['\''], s + 5)) by {
                            assert(line@.subrange(s, s + 6) == "from '"@);
                            assert("from '"@[5] == '\'');
                            assert(line@.subrange(s, s + 6)[5] == line@[s + 5]);
                            assert(line@.subrange(s + 5, s + 6) =~= seq!['\'']);
                        }
                        lemma_rfind_last(line@, seq!['\''], line@.len() - 1, s + 5);
                    }
                }
                from_clause_exec(&l, "from \"", '"')
            },
        }
    }

    /// The modules a script imports, line by line: by `import ... from`
    /// lines, by dynamic `import('...')` and by `require('...')`.
    pub fn extract_imports(&self, script: &str, current_path: &Path) -> (r: Result<Vec<String>, String>)
        requires
            imports_well_formed(script@),
        ensures
            r matches Ok(v) && str_views(v@) == imports_upto(lines(script@), lines(script@).len() as int),
    {
        let cs = chars_of(script);
        let ranges = line_ranges(&cs);
        let imp = chars_of("import ");
        let mut out: Vec<String> = Vec::new();
        proof {
            reveal_strlit("import('");
            reveal_strlit("require('");
        }
        let mut i: usize = 0;
        while i < ranges.len()
            invariant
                i <= ranges@.len(),
                cs@ == script@,
                imp@ == "import "@,
                pieces(cs@, ranges@) == lines(script@),
                valid_ranges(cs@, ranges@),
                imports_well_formed(script@),
                str_views(out@) == imports_upto(lines(script@), i as int),
            decreases ranges@.len() - i,
        {
            let (a, b) = ranges[i];
            let (x, y) = trim_bounds(&cs, a, b);
            proof {
                assert(pieces(cs@, ranges@)[i as int] == cs@.subrange(a as int, b as int));
                assert(lines(script@)[i as int] == cs@.subrange(a as int, b as int));
            }
            let t = sub_chars(&cs, x, y);
            let tlen = t.len();
            proof {
                reveal_strlit("import('");
                reveal_strlit("require('");
            }
            let ghost before = str_views(out@);
            let from_kw = chars_of(" from ");
            if starts_with_exec(&t, &imp) && find_exec(&t, &from_kw).is_some() {
                let ts = crate::text::string_of_all(&t);
                match self.extract_string_from_import(ts.as_str()) {
                    Some(d) => {
                        out.push(d);
                    },
                    None => {},
                }
            }
            let ghost s1 = str_views(out@);
            assert(s1 =~= before + (if is_static_import(t@) {
                opt_seq(string_from_import(t@))
            } else {
                Seq::empty()
            }));
            let dynk = chars_of("import(");
            if find_exec(&t, &dynk).is_some() {
                let dq = chars_of("import('");
                match find_exec(&t, &dq) {
                    Some(s) => {
                        proof {
                            lemma_find_from(t@, dq@, 0);
                            assert(dq@.len() == 8);
                        }
                        match quoted_from_exec(&t, s + 8, '\'') {
                            Some(d) => {
                                out.push(d);
                            },
                            None => {},
                        }
                    },
                    None => {},
                }
            }
            let ghost s2 = str_views(out@);
            assert(s2 =~= s1 + (if contains(t@, "import("@) {
                match find(t@, "import('"@) {
                    Some(s) => opt_seq(quoted_from(t@, s + 8, '\'')),
                    None => Seq::empty(),
                }
            } else {
                Seq::empty()
            }));
            let reqk = chars_of("require(");
            if find_exec(&t, &reqk).is_some() {
                let rq = chars_of("require('");
                match find_exec(&t, &rq) {
                    Some(s) => {
                        proof {
                            lemma_find_from(t@, rq@, 0);
                            assert(rq@.len() == 9);
                        }
                        match quoted_from_exec(&t, s + 9, '\'') {
                            Some(d) => {
                                out.push(d);
                            },
                            None => {},
                        }
                    },
                    None => {},
                }
            }
            assert(str_views(out@) =~= imports_upto(lines(script@), i + 1));
            i = i + 1;
        }
        Ok(out)
    }

    /// The modules a TypeScript script imports: those `extract_imports`
    /// finds, then those of type-only imports not found already.
    pub fn parse_ts_dependencies(&self, content: &str, current_path: &Path) -> (r: Result<Vec<String>, String>)
        requires
            imports_well_formed(content@),
            type_imports_well_formed(content@),
        ensures
            r matches Ok(v) && str_views(v@) == with_type_imports(
                lines(content@),
                lines(content@).len() as int,
                imports_upto(lines(content@), lines(content@).len() as int),
            ),
    {
        let mut imports = match self.extract_imports(content, current_path) {
            Ok(v) => v,
            Err(e) => return Err(e),
        };
        let ghost base = str_views(imports@);
        let cs = chars_of(content);
        let ranges = line_ranges(&cs);
        let kw = chars_of("import type ");
        let kw2 = chars_of("import type{");
        let mut i: usize = 0;
        while i < ranges.len()
            invariant
                i <= ranges@.len(),
                cs@ == content@,
                kw@ == "import type "@,
                kw2@ == "import type{"@,
                pieces(cs@, ranges@) == lines(content@),
                valid_ranges(cs@, ranges@),
                type_imports_well_formed(content@),
                base == imports_upto(lines(content@), lines(content@).len() as int),
                str_views(imports@) == with_type_imports(lines(content@), i as int, base),
            decreases ranges@.len() - i,
        {
            let (a, b) = ranges[i];
            let line = sub_chars(&cs, a, b);
            let t = trimmed(&line);
            assert(line@ == lines(content@)[i as int]);
            if starts_with_exec(&t, &kw) || find_exec(&t, &kw2).is_some() {
                let ts = string_of_all(&t);
                match self.extract_string_from_import(ts.as_str()) {
                    Some(dep) => {
                        if !strs_hold(&imports, dep.as_str()) {
                            let ghost before = imports@;
                            imports.push(dep);
                            assert(str_views(imports@) =~= str_views(before).push(dep@));
                        }
                    },
                    None => {},
                }
            }
            i = i + 1;
        }
        Ok(imports)
    }

    /// The kind of module a path names, by its extension.
    pub fn module_kind(mod_path: &str) -> (r: ModuleKind)
        ensures
            r == kind_of(mod_path@),
    {
        let v = chars_of(mod_path);
        let vue = chars_of(".vue");
        let ts = chars_of(".ts");
        let tsx = chars_of(".tsx");
        let css = chars_of(".css");
        let scss = chars_of(".scss");
        let sass = chars_of(".sass");
        let less = chars_of(".less");
        if ends_with_exec(&v, &vue) {
            ModuleKind::Vue
        } else if ends_with_exec(&v, &ts) || ends_with_exec(&v, &tsx) {
            ModuleKind::TypeScript
        } else if ends_with_exec(&v, &css) {
            ModuleKind::Css
        } else if ends_with_exec(&v, &scss) || ends_with_exec(&v, &sass) {
            ModuleKind::Scss
        } else if ends_with_exec(&v, &less) {
            ModuleKind::Less
        } else {
            ModuleKind::Script
        }
    }

    /// The compiled module of a path that is not a component, from its
    /// compiled text: for a style sheet, the CSS as an unscoped style block
    /// behind a script that only names the module; otherwise the text is
    /// the script.
    pub fn assemble_module(mod_path: &str, kind: ModuleKind, output: String) -> (r: CompiledModule)
        ensures
            is_style_kind(kind) ==> r.script@ == style_module_script(kind, mod_path@) && style_views(r.styles@)
                == seq![(output@, false)],
            !is_style_kind(kind) ==> r.script@ == output@ && r.styles@.len() == 0,
            r.deps@.len() == 0,
    {
        match kind {
            ModuleKind::Css | ModuleKind::Scss | ModuleKind::Less => {
                let label = match kind {
                    ModuleKind::Scss => "// SCSS module: ",
                    ModuleKind::Less => "// Less module: ",
                    _ => "// CSS module: ",
                };
                let script = owned(label).concat(mod_path).concat("\nexport default {}");
                let styles = vec![StyleBlock { code: output, scoped: false }];
                assert(style_views(styles@) =~= seq![(output@, false)]);
                CompiledModule { script, styles, deps: Vec::new() }
            },
            _ => CompiledModule { script: output, styles: Vec::new(), deps: Vec::new() },
        }
    }

    /// A copy of the compiled module of a path, if it is cached.
    pub fn cached_module(&self, mod_path: &str) -> (r: Option<CompiledModule>)
        ensures
            match r {
                Some(m) => self.cache().dom().contains(mod_path@) && module_copied(self.cache()[mod_path@], m),
                None => !self.cache().dom().contains(mod_path@),
            },
    {
        match self.compiled_cache.get(mod_path) {
            Some(m) => Some(m.copy()),
            None => None,
        }
    }

    /// Compiles a module from the text read from its file: a module in the
    /// cache is given from there, whatever the text; a plain script is its
    /// own script; any other kind takes what its compiler gave (a style
    /// sheet's CSS as an unscoped style block behind a script that names the
    /// module).  A module compiled is cached and recorded; a compiler error
    /// is given back and changes nothing.
    pub fn compile_single_module(&mut self, mod_path: &str, content: String, output: CompilerOutput) -> (r: Result<
        CompiledModule,
        String,
    >)
        ensures
            final(self).packages() == old(self).packages(),
            final(self).cache().dom().finite(),
            r is Ok && !old(self).cache().dom().contains(mod_path@) ==> final(self).cache().dom().len()
                == old(self).cache().dom().len() + 1,
            old(self).cache().dom().contains(mod_path@) ==> {
                &&& r matches Ok(m) && module_copied(old(self).cache()[mod_path@], m)
                &&& final(self).cache() == old(self).cache()
                &&& final(self).done() == old(self).done()
            },
            !old(self).cache().dom().contains(mod_path@) ==> match (kind_of(mod_path@), output) {
                (ModuleKind::Script, _) => {
                    &&& r matches Ok(m) && m.script@ == content@ && m.styles@.len() == 0 && m.deps@.len() == 0
                    &&& final(self).cache().dom().contains(mod_path@)
                    &&& module_copied(final(self).cache()[mod_path@], r->Ok_0)
                    &&& final(self).cache() == old(self).cache().insert(mod_path@, final(self).cache()[mod_path@])
                    &&& final(self).done().to_set() == old(self).done().to_set().insert(mod_path@)
                },
                (_, CompilerOutput::Failed(e)) => {
                    &&& r matches Err(x) && x@ == e@
                    &&& final(self).cache() == old(self).cache()
                    &&& final(self).done() == old(self).done()
                },
                (kind, CompilerOutput::Text(t)) => {
                    &&& r matches Ok(m) && m.deps@.len() == 0 && (if is_style_kind(kind) {
                        m.script@ == style_module_script(kind, mod_path@) && style_views(m.styles@) == seq![(t@, false)]
                    } else {
                        m.script@ == t@ && m.styles@.len() == 0
                    })
                    &&& final(self).cache().dom().contains(mod_path@)
                    &&& module_copied(final(self).cache()[mod_path@], r->Ok_0)
                    &&& final(self).cache() == old(self).cache().insert(mod_path@, final(self).cache()[mod_path@])
                    &&& final(self).done().to_set() == old(self).done().to_set().insert(mod_path@)
                },
                (_, CompilerOutput::Component(c)) => {
                    &&& r matches Ok(m) && module_copied(c, m)
                    &&& final(self).cache() == old(self).cache().insert(mod_path@, c)
                    &&& final(self).done().to_set() == old(self).done().to_set().insert(mod_path@)
                },
            },
    {
        proof {
            use_type_invariant(&self.compiled_cache);
            self.compiled_cache.lemma_view();
        }
        match self.cached_module(mod_path) {
            Some(m) => return Ok(m),
            None => {},
        }
        let kind = Self::module_kind(mod_path);
        let compiled = match kind {
            ModuleKind::Script => Self::assemble_module(mod_path, kind, content),
            _ => match output {
                CompilerOutput::Failed(e) => return Err(e),
                CompilerOutput::Text(t) => Self::assemble_module(mod_path, kind, t),
                CompilerOutput::Component(c) => c,
            },
        };
        let ghost c = compiled;
        let r = self.record_compiled(mod_path, compiled);
        assert(self.cache()[mod_path@] == c);
        assert(r.styles@.len() == style_views(r.styles@).len() && c.styles@.len() == style_views(c.styles@).len());
        assert(r.deps@.len() == str_views(r.deps@).len() && c.deps@.len() == str_views(c.deps@).len());
        proof {
            use_type_invariant(&self.compiled_cache);
            self.compiled_cache.lemma_view();
        }
        Ok(r)
    }

    /// Caches a module just compiled and records it as compiled; returns a
    /// copy of it.
    pub fn record_compiled(&mut self, mod_path: &str, compiled: CompiledModule) -> (r: CompiledModule)
        ensures
            module_copied(compiled, r),
            final(self).cache() == old(self).cache().insert(mod_path@, compiled),
            final(self).done().to_set() == old(self).done().to_set().insert(mod_path@),
            final(self).packages() == old(self).packages(),
    {
        proof {
            use_type_invariant(&*self);
        }
        let copy = compiled.copy();
        let mut cache: StrMap<CompiledModule> = StrMap::new();
        std::mem::swap(&mut cache, &mut self.compiled_cache);
        cache.insert(mod_path, compiled);
        self.compiled_cache = cache;
        let ghost before = str_views(self.compiled@);
        if !strs_hold(&self.compiled, mod_path) {
            let mut list: Vec<String> = Vec::new();
            std::mem::swap(&mut list, &mut self.compiled);
            list.push(owned(mod_path));
            proof {
                assert(str_views(list@) =~= before.push(mod_path@));
                assert(str_views(list@).no_duplicates()) by {
                    let s = str_views(list@);
                    assert forall|i: int, j: int| 0 <= i < s.len() && 0 <= j < s.len() && i != j implies s[i] != s[j] by {
                        if i < before.len() && j < before.len() {
                        } else if i == before.len() {
                            assert(before.contains(s[j]) || j == i);
                        } else {
                            assert(before.contains(s[i]));
                        }
                    }
                }
            }
            self.compiled = list;
            proof {
                let now = str_views(self.compiled@);
                assert(now == before.push(mod_path@));
                assert forall|x: Seq<char>| now.contains(x) <==> before.contains(x) || x == mod_path@ by {
                    if now.contains(x) {
                        let w = choose|w: int| 0 <= w < now.len() && now[w] == x;
                        if w < before.len() {
                            assert(before[w] == x);
                        }
                    }
                    if before.contains(x) {
                        let w = choose|w: int| 0 <= w < before.len() && before[w] == x;
                        assert(now[w] == x);
                    }
                    if x == mod_path@ {
                        assert(now[before.len() as int] == x);
                    }
                }
            }
            assert(str_views(self.compiled@).to_set() =~= before.to_set().insert(mod_path@));
        } else {
            assert(before.to_set().contains(mod_path@));
            assert(str_views(self.compiled@).to_set() =~= before.to_set().insert(mod_path@));
        }
        copy
    }

    /// What compiling SCSS gives, from what the compiler returned: its CSS,
    /// or an error that names the file.
    pub fn scss_outcome(filename: &str, compiled: Result<String, String>) -> (r: Result<String, String>)
        ensures
            match compiled {
                Ok(css) => r matches Ok(c) && c@ == css@,
                Err(_) => r matches Err(e) && e@ == "Failed to compile SCSS: "@ + filename@,
            },
    {
        match compiled {
            Ok(css) => Ok(css),
            Err(_) => Err(owned("Failed to compile SCSS: ").concat(filename)),
        }
    }

    /// Whether a package was found already.
    pub fn has_npm_package(&self, package_name: &str) -> (r: bool)
        ensures
            r == self.packages().dom().contains(package_name@),
    {
        self.npm_packages.contains_key(package_name)
    }

    /// Records a package found under `node_modules`.
    pub fn record_npm_package(&mut self, package_name: &str, info: PackageInfo)
        ensures
            final(self).packages() == old(self).packages().insert(package_name@, info),
            final(self).cache() == old(self).cache(),
            final(self).done() == old(self).done(),
    {
        proof {
            use_type_invariant(&*self);
        }
        let mut pk: StrMap<PackageInfo> = StrMap::new();
        std::mem::swap(&mut pk, &mut self.npm_packages);
        pk.insert(package_name, info);
        self.npm_packages = pk;
    }

    /// The packages found.
    pub fn npm_packages(&self) -> (r: &StrMap<PackageInfo>)
        ensures
            r@ == self.packages(),
    {
        &self.npm_packages
    }
}

} // verus!
