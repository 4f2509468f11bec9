//! A simple loader of JavaScript modules: a cache by module path and the
//! dependencies read from `import` and `export` lines.
use vstd::prelude::*;
use vstd::string::StringExecFns;
use std::path::{Path, PathBuf};
use crate::strmap::StrMap;
use crate::text::{
    chars_of, find, rfind, find_exec, rfind_exec, lines, line_ranges, pieces, starts_with,
    starts_with_exec, string_of, sub_chars, trim, trim_bounds,
};

verus! {

/// A file system path, carried through unchanged.
#[verifier::external_type_specification]
#[verifier::external_body]
pub struct ExPathBuf(std::path::PathBuf);

/// A borrowed file system path.
#[verifier::external_type_specification]
#[verifier::external_body]
pub struct ExPath(std::path::Path);

/// Calls `Path::to_path_buf`, an owned copy of the path; nothing is stated
/// of paths here, which are carried through.
#[verifier::external_body]
pub(crate) fn to_path_buf(p: &Path) -> PathBuf {
    p.to_path_buf()
}

/// Calls `PathBuf::clone`: claimed, the copy equals the path (a `PathBuf`
/// is an owned value, and its clone holds the same components).
#[verifier::external_body]
pub(crate) fn copy_path(p: &PathBuf) -> (r: PathBuf)
    ensures
        r == *p,
{
    p.clone()
}

/// The sequence holding `o`'s value, if any.
pub open spec fn opt_seq<A>(o: Option<A>) -> Seq<A> {
    match o {
        Some(x) => seq![x],
        None => Seq::empty(),
    }
}

/// A name of a package, not a path: it starts with neither `.` nor `/`.
pub open spec fn is_external(d: Seq<char>) -> bool {
    !(d.len() > 0 && (d[0] == '.' || d[0] == '/'))
}

/// The external dependency named on a trimmed line: on `import` and
/// `export` lines, the text between the first and the last single quote,
/// when it names a package rather than a relative or absolute path.
pub open spec fn quoted_dep(t: Seq<char>) -> Option<Seq<char>> {
    if starts_with(t, "import "@) || starts_with(t, "export "@) {
        match find(t, seq!['\'']) {
            Some(a) => match rfind(t, seq!['\'']) {
                Some(b) => if a < b && is_external(t.subrange(a + 1, b)) {
                    Some(t.subrange(a + 1, b))
                } else {
                    None
                },
                None => None,
            },
            None => None,
        }
    } else {
        None
    }
}

/// The dependencies named on the first `k` lines, in order.
pub open spec fn module_deps_upto(ls: Seq<Seq<char>>, k: int) -> Seq<Seq<char>>
    decreases k,
{
    if k <= 0 {
        Seq::empty()
    } else {
        module_deps_upto(ls, k - 1) + opt_seq(quoted_dep(trim(ls[k - 1])))
    }
}

/// The dependencies named in a module's code.
pub open spec fn module_deps(code: Seq<char>) -> Seq<Seq<char>> {
    module_deps_upto(lines(code), lines(code).len() as int)
}

/// The characters of each string.
pub open spec fn str_views(v: Seq<String>) -> Seq<Seq<char>> {
    v.map_values(|s: String| s@)
}

/// A loaded module.
#[derive(Debug)]
pub struct ModuleInfo {
    /// Where it was read from.
    pub path: PathBuf,
    /// Its code.
    pub code: String,
    /// Its dependencies.
    pub dependencies: Vec<String>,
}

/// `b` holds the code and dependencies of `a`.
pub open spec fn module_copied(a: ModuleInfo, b: ModuleInfo) -> bool {
    a.code@ == b.code@ && str_views(a.dependencies@) == str_views(b.dependencies@)
}

/// A copy of a list of strings.
pub fn copy_strings(v: &Vec<String>) -> (r: Vec<String>)
    ensures
        str_views(r@) == str_views(v@),
{
    let mut r: Vec<String> = Vec::new();
    let mut i: usize = 0;
    while i < v.len()
        invariant
            i <= v@.len(),
            r@.len() == i,
            forall|j: int| 0 <= j < i ==> #[trigger] r@[j]@ == v@[j]@,
        decreases v@.len() - i,
    {
        r.push(v[i].clone());
        i = i + 1;
    }
    assert(str_views(r@) =~= str_views(v@));
    r
}

impl ModuleInfo {
    /// A copy.
    pub fn copy(&self) -> (m: Self)
        ensures
            module_copied(*self, m),
    {
        ModuleInfo { path: copy_path(&self.path), code: self.code.clone(), dependencies: copy_strings(&self.dependencies) }
    }
}

/// The dependency named on the trimmed line `cs[lo..hi]`, if any.
fn quoted_dep_exec(cs: &Vec<char>, lo: usize, hi: usize, import_kw: &Vec<char>, export_kw: &Vec<char>) -> (r: Option<String>)
    requires
        lo <= hi <= cs@.len(),
        import_kw@ == "import "@,
        export_kw@ == "export "@,
    ensures
        match r {
            Some(d) => quoted_dep(cs@.subrange(lo as int, hi as int)) == Some(d@),
            None => quoted_dep(cs@.subrange(lo as int, hi as int)) is None,
        },
{
    let t = sub_chars(cs, lo, hi);
    if !(starts_with_exec(&t, import_kw) || starts_with_exec(&t, export_kw)) {
        return None;
    }
    let q: Vec<char> = vec!['\''];
    assert(q@ == seq!['\'']);
    match find_exec(&t, &q) {
        Some(a) => match rfind_exec(&t, &q) {
            Some(b) => {
                proof {
                    crate::text::lemma_rfind_from(t@, seq!['\''], t@.len() - 1);
                }
                if a < b {
                    let d = string_of(&t, a + 1, b);
                    let first_ok = !(a + 1 < b && (t[a + 1] == '.' || t[a + 1] == '/'));
                    assert(a + 1 < b ==> d@[0] == t@[a + 1]);
                    if first_ok {
                        Some(d)
                    } else {
                        None
                    }
                } else {
                    None
                }
            },
            None => None,
        },
        None => None,
    }
}

/// The external dependencies named in a module's code: for each `import`
/// or `export` line, the text between its first and last single quote,
/// unless it is a relative or absolute path.
pub fn parse_module_dependencies(code: &str) -> (r: Vec<String>)
    ensures
        str_views(r@) == module_deps(code@),
{
    let cs = chars_of(code);
    let ranges = line_ranges(&cs);
    let import_kw = chars_of("import ");
    let export_kw = chars_of("export ");
    let mut deps: Vec<String> = Vec::new();
    let mut i: usize = 0;
    while i < ranges.len()
        invariant
            i <= ranges@.len(),
            cs@ == code@,
            import_kw@ == "import "@,
            export_kw@ == "export "@,
            pieces(cs@, ranges@) == lines(code@),
            crate::text::valid_ranges(cs@, ranges@),
            str_views(deps@) == module_deps_upto(lines(code@), i as int),
        decreases ranges@.len() - i,
    {
        let (a, b) = ranges[i];
        let (x, y) = trim_bounds(&cs, a, b);
        proof {
            assert(pieces(cs@, ranges@)[i as int] == cs@.subrange(a as int, b as int));
        }
        match quoted_dep_exec(&cs, x, y, &import_kw, &export_kw) {
            Some(d) => {
                deps.push(d);
            },
            None => {},
        }
        i = i + 1;
        assert(str_views(deps@) =~= module_deps_upto(lines(code@), i as int));
    }
    deps
}

/// Loader of modules with a cache by module path.
#[derive(Debug)]
pub struct ModuleLoader {
    cache: StrMap<ModuleInfo>,
    /// Directories searched for modules.
    pub search_paths: Vec<PathBuf>,
}

impl ModuleLoader {
    /// The cached modules.
    pub closed spec fn cached(&self) -> Map<Seq<char>, ModuleInfo> {
        self.cache@
    }

    /// The directories searched, in order.
    pub closed spec fn paths(&self) -> Seq<PathBuf> {
        self.search_paths@
    }

    /// An empty loader.
    pub fn new() -> (l: Self)
        ensures
            l.cached() == Map::<Seq<char>, ModuleInfo>::empty(),
            l.paths().len() == 0,
    {
        ModuleLoader { cache: StrMap::new(), search_paths: Vec::new() }
    }

    /// Adds a directory to search.
    pub fn add_search_path(&mut self, path: &Path)
        ensures
            final(self).paths().len() == old(self).paths().len() + 1,
            final(self).paths().drop_last() == old(self).paths(),
            final(self).cached() == old(self).cached(),
    {
        self.search_paths.push(to_path_buf(path));
    }

    /// The names tried for a module in each search directory, in order:
    /// the path itself, with `.js`, and its `index.js`.
    pub fn candidate_names(&self, mod_path: &str) -> (r: Vec<String>)
        ensures
            str_views(r@) == seq![mod_path@, mod_path@ + ".js"@, mod_path@ + "/index.js"@],
    {
        let r = vec![
            String::from_str(mod_path),
            String::from_str(mod_path).concat(".js"),
            String::from_str(mod_path).concat("/index.js"),
        ];
        assert(str_views(r@) =~= seq![mod_path@, mod_path@ + ".js"@, mod_path@ + "/index.js"@]);
        r
    }

    /// The dependencies named in a module's code.
    pub fn parse_dependencies(&self, code: &str) -> (r: Result<Vec<String>, String>)
        ensures
            r matches Ok(d) && str_views(d@) == module_deps(code@),
    {
        Ok(parse_module_dependencies(code))
    }

    /// Records a module read from `full_path` under `mod_path` and
    /// returns it with its dependencies.
    pub fn add_loaded(&mut self, mod_path: &str, full_path: PathBuf, code: &str) -> (r: ModuleInfo)
        ensures
            r.code@ == code@,
            str_views(r.dependencies@) == module_deps(code@),
            final(self).cached().contains_key(mod_path@),
            module_copied(r, final(self).cached()[mod_path@]),
            final(self).cached().remove(mod_path@) == old(self).cached().remove(mod_path@),
            final(self).paths() == old(self).paths(),
    {
        let dependencies = parse_module_dependencies(code);
        let info = ModuleInfo { path: full_path, code: crate::text::owned(code), dependencies };
        let c = info.copy();
        self.cache.insert(mod_path, c);
        assert(self.cached().remove(mod_path@) =~= old(self).cached().remove(mod_path@));
        info
    }

    /// A copy of the cached module `mod_path`.
    pub fn get_cached(&self, mod_path: &str) -> (r: Option<ModuleInfo>)
        ensures
            match r {
                Some(m) => self.cached().contains_key(mod_path@) && module_copied(self.cached()[mod_path@], m),
                None => !self.cached().contains_key(mod_path@),
            },
    {
        match self.cache.get(mod_path) {
            Some(m) => Some(m.copy()),
            None => None,
        }
    }

    /// Empties the cache.
    pub fn clear_cache(&mut self)
        ensures
            final(self).cached() == Map::<Seq<char>, ModuleInfo>::empty(),
            final(self).paths() == old(self).paths(),
    {
        self.cache.clear();
    }

    /// Number of cached modules.
    pub fn cache_size(&self) -> (n: usize)
        ensures
            n == self.cached().dom().len(),
    {
        self.cache.len()
    }
}

} // verus!
