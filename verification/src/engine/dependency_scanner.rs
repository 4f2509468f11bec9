//! Finding problems with what a project's sources import: packages used
//! but not declared, and local files, styles and assets that are missing.
use vstd::prelude::*;
use vstd::string::StringExecFns;
use std::path::PathBuf;
use crate::strmap::StrMap;
use crate::text::{
    chars_of, contains, find, find_exec, lines, line_ranges, lemma_find_from, lemma_rfind_from, match_at, owned,
    pieces, rfind, rfind_exec, starts_with, starts_with_exec, string_of, string_of_all, sub_chars, trim, trim_bounds, valid_ranges,
    split_char, split_ranges, str_eq,
};
use crate::jetcrab::module::str_views;
use crate::layout::vdom::opt_view;
use crate::engine::sfc_compiler::{append_chars, join_unix, join_unix_exec, parent_of, path_parent};

verus! {

/// The kind of a problem with an import.
#[derive(Debug, Clone, Copy, PartialEq, Eq, Structural)]
pub enum IssueType {
    /// A package that `package.json` does not declare.
    MissingNpmPackage,
    /// A missing component or script.
    MissingLocalFile,
    /// A missing style sheet.
    MissingCssFile,
    /// A missing image or other asset.
    MissingAsset,
}

/// A problem with an import.
#[derive(Debug, Clone)]
pub struct DependencyIssue {
    /// Kind of problem.
    pub issue_type: IssueType,
    /// The path or package imported.
    pub import_path: String,
    /// The file that imports it.
    pub source_file: String,
    /// The line of the import.
    pub source_line: Option<usize>,
    /// What is wrong.
    pub description: String,
    /// What will be done about it.
    pub solution: String,
    /// `error`, `warning` or `info`.
    pub severity: String,
    /// Whether it can be fixed without the user.
    pub can_auto_fix: bool,
}

/// The outcome of a scan.
#[derive(Debug)]
pub struct ScanResult {
    /// Problems found.
    pub issues: Vec<DependencyIssue>,
    /// Packages declared in `package.json`, with their version ranges.
    pub declared_packages: StrMap<String>,
    /// Packages installed under `node_modules`.
    pub installed_packages: Vec<String>,
    /// Whether `node_modules` exists.
    pub has_node_modules: bool,
    /// Number of source files scanned.
    pub source_file_count: usize,
    /// Versions recorded in `irisResolved`.
    pub iris_resolved: StrMap<String>,
}

/// Searching backwards finds a match at or after any match `k <= i`.
pub proof fn lemma_rfind_last(s: Seq<char>, p: Seq<char>, i: int, k: int)
    requires
        0 <= k <= i,
        match_at(s, p, k),
    ensures
        crate::text::rfind_from(s, p, i) matches Some(j) && k <= j <= i,
    decreases i - k,
{
    if !match_at(s, p, i) {
        lemma_rfind_last(s, p, i - 1, k);
    }
}

/// The text after position `st` up to the next `q`, if there is one.
pub open spec fn quoted_from(line: Seq<char>, st: int, q: char) -> Option<Seq<char>> {
    match find(line.subrange(st, line.len() as int), seq![q]) {
        Some(e) => Some(line.subrange(st, st + e)),
        None => None,
    }
}

/// The text of an `import ... from '...'` (or with double quotes) line
/// between `from ` and the last quote.
pub open spec fn from_clause(line: Seq<char>, from_kw: Seq<char>, q: char) -> Option<Seq<char>> {
    match find(line, from_kw) {
        Some(s) => match rfind(line, seq![q]) {
            Some(e) => if s < e {
                Some(line.subrange(s + 6, e))
            } else {
                None
            },
            None => None,
        },
        None => None,
    }
}

/// The module an `import` line names: after `from '`, after `from "`, or
/// in a bare `import '...'`.
pub open spec fn import_clause(line: Seq<char>) -> Option<Seq<char>> {
    if starts_with(line, "import "@) {
        match from_clause(line, "from '"@, '\'') {
            Some(x) => Some(x),
            None => match from_clause(line, "from \""@, '"') {
                Some(x) => Some(x),
                None => match find(line, "import '"@) {
                    Some(s) => quoted_from(line, s + 8, '\''),
                    None => None,
                },
            },
        }
    } else {
        None
    }
}

/// The module a line imports: by an `import` statement, by
/// `require('...')`, or by a dynamic `import('...')` on a line without
/// ` from `.
pub open spec fn import_of_line(line: Seq<char>) -> Option<Seq<char>> {
    match import_clause(line) {
        Some(x) => Some(x),
        None => {
            let req = if contains(line, "require("@) {
                match find(line, "require('"@) {
                    Some(s) => quoted_from(line, s + 9, '\''),
                    None => None,
                }
            } else {
                None
            };
            match req {
                Some(x) => Some(x),
                None => if contains(line, "import("@) && !contains(line, " from "@) {
                    match find(line, "import('"@) {
                        Some(s) => quoted_from(line, s + 8, '\''),
                        None => None,
                    }
                } else {
                    None
                },
            }
        },
    }
}

/// An `import` line whose `from` clause ends at its opening quote, which
/// the line holds no other quote after: there is no text to take.
pub open spec fn import_line_malformed(line: Seq<char>) -> bool {
    starts_with(line, "import "@) && match find(line, "from '"@) {
        Some(s) => rfind(line, seq!['\'']) == Some(s + 5),
        None => match find(line, "from \""@) {
            Some(s) => rfind(line, seq!['"']) == Some(s + 5),
            None => false,
        },
    }
}

/// The text after `st` up to the next `q`.
pub(crate) fn quoted_from_exec(line: &Vec<char>, st: usize, q: char) -> (r: Option<String>)
    requires
        st <= line@.len(),
    ensures
        match r {
            Some(x) => quoted_from(line@, st as int, q) == Some(x@),
            None => quoted_from(line@, st as int, q) is None,
        },
{
    let rest = sub_chars(line, st, line.len());
    let qv: Vec<char> = vec![q];
    assert(qv@ =~= seq![q]);
    match find_exec(&rest, &qv) {
        Some(e) => {
            proof {
                lemma_find_from(rest@, qv@, 0);
            }
            Some(string_of(line, st, st + e))
        },
        None => None,
    }
}

/// The `from` clause of an import line.
pub(crate) fn from_clause_exec(line: &Vec<char>, from_kw: &str, q: char) -> (r: Option<String>)
    requires
        from_kw@.len() == 6,
        from_kw@[5] == q,
        find(line@, from_kw@) matches Some(s) ==> rfind(line@, seq![q]) != Some(s + 5),
    ensures
        match r {
            Some(x) => from_clause(line@, from_kw@, q) == Some(x@),
            None => from_clause(line@, from_kw@, q) is None,
        },
{
    let kw = chars_of(from_kw);
    let qv: Vec<char> = vec![q];
    assert(qv@ =~= seq![q]);
    match find_exec(line, &kw) {
        Some(s) => {
            proof {
                lemma_find_from(line@, kw@, 0);
            }
            match rfind_exec(line, &qv) {
                Some(e) => {
                    proof {
                        lemma_rfind_from(line@, qv@, line@.len() - 1);
                        assert(line@.subrange(s as int, s + 6) == kw@);
                        assert(line@[s + 5] == q);
                        assert(match_at(line@, qv@, s + 5)) by {
                            assert(line@.subrange(s + 5, s + 6) =~= qv@);
                        }
                        lemma_rfind_last(line@, qv@, line@.len() - 1, s + 5);
                    }
                    if s < e {
                        Some(string_of(line, s + 6, e))
                    } else {
                        None
                    }
                },
                None => None,
            }
        },
        None => None,
    }
}


/// Whether a line's `from` clause ends at its opening quote, with no quote
/// after it (the `import ` start aside).
pub(crate) fn from_clause_ends_early(l: &Vec<char>) -> (r: bool)
    ensures
        r == (match find(l@, "from '"@) {
            Some(s) => rfind(l@, seq!['\'']) == Some(s + 5),
            None => match find(l@, "from \""@) {
                Some(s) => rfind(l@, seq!['"']) == Some(s + 5),
                None => false,
            },
        }),
{
    let sq = chars_of("from '");
    let dq = chars_of("from \"");
    let q1: Vec<char> = vec!['\''];
    let q2: Vec<char> = vec!['"'];
    assert(q1@ =~= seq!['\'']);
    assert(q2@ =~= seq!['"']);
    match find_exec(l, &sq) {
        Some(s) => match rfind_exec(l, &q1) {
            Some(e) => e >= 5 && e - 5 == s,
            None => false,
        },
        None => match find_exec(l, &dq) {
            Some(s) => match rfind_exec(l, &q2) {
                Some(e) => e >= 5 && e - 5 == s,
                None => false,
            },
            None => false,
        },
    }
}

/// A comment line, which is not searched for imports.
pub open spec fn is_comment_line(t: Seq<char>) -> bool {
    starts_with(t, "//"@) || starts_with(t, "/*"@) || starts_with(t, "*"@)
}

/// The imports, with their line numbers (from 1), on the first `k` lines
/// that are not comments.
pub open spec fn source_imports_upto(ls: Seq<Seq<char>>, k: int) -> Seq<(Seq<char>, int)>
    decreases k,
{
    if k <= 0 {
        Seq::empty()
    } else {
        let t = trim(ls[k - 1]);
        source_imports_upto(ls, k - 1) + if !is_comment_line(t) && import_of_line(t) is Some {
            seq![(import_of_line(t)->0, k)]
        } else {
            Seq::empty()
        }
    }
}

/// Whether an import names a package rather than a path.
pub open spec fn is_package_import(p: Seq<char>) -> bool {
    !starts_with(p, "."@) && !starts_with(p, "/"@)
}

/// The packages imported on the first `k` lines, comments included.
pub open spec fn package_imports_upto(ls: Seq<Seq<char>>, k: int) -> Seq<Seq<char>>
    decreases k,
{
    if k <= 0 {
        Seq::empty()
    } else {
        let t = trim(ls[k - 1]);
        package_imports_upto(ls, k - 1) + match import_of_line(t) {
            Some(x) => if is_package_import(x) {
                seq![x]
            } else {
                Seq::empty()
            },
            None => Seq::empty(),
        }
    }
}

/// A problem by its parts: kind, import, source file, line, description,
/// solution, severity and whether it can be fixed automatically.
pub type IssueView = (IssueType, Seq<char>, Seq<char>, Option<usize>, Seq<char>, Seq<char>, Seq<char>, bool);

/// A problem by its parts.
pub open spec fn issue_view(i: DependencyIssue) -> IssueView {
    (i.issue_type, i.import_path@, i.source_file@, i.source_line, i.description@, i.solution@, i.severity@, i.can_auto_fix)
}

/// The problem with a package that is not declared (neither in
/// `package.json` nor in `irisResolved`): a warning when it is installed
/// anyway, else an error to be fixed by downloading it.
pub open spec fn npm_issue(name: Seq<char>, source: Seq<char>, line: usize, installed: bool) -> IssueView {
    (
        IssueType::MissingNpmPackage,
        name,
        source,
        Some(line),
        "npm 包 '"@ + name + "' 在 '"@ + source + "' 中引用，但未在 package.json 中声明"@,
        if installed {
            "✅ 包 '"@ + name + "' 已在 node_modules 中发现 ✓，无需下载。建议将其添加到 package.json 的 dependencies 中以便版本管理。"@
        } else {
            "📦 自动从 npm registry 下载 '"@ + name + "@"@ + "latest"@ + "' 到 node_modules/，并写入 package.json 的 irisResolved 字段"@
        },
        if installed {
            "warning"@
        } else {
            "error"@
        },
        !installed,
    )
}

/// The last part of a path after a `.`.
pub open spec fn extension_of(p: Seq<char>) -> Seq<char> {
    split_char(p, '.').last()
}

/// The problem with a local file that was not found, by its extension:
/// a style sheet or an asset is replaced with a stand-in (a warning), as is a
/// component or script; another file is skipped (for information).
pub open spec fn local_issue(path: Seq<char>, source: Seq<char>, line: usize) -> IssueView {
    let ext = extension_of(path);
    let (kind, severity, solution) = if ext == "css"@ || ext == "scss"@ || ext == "sass"@ || ext == "less"@ {
        (IssueType::MissingCssFile, "warning"@, "创建空桩模块替代 '"@ + path + "'（仅控制台警告，页面不崩溃）"@)
    } else if ext == "png"@ || ext == "jpg"@ || ext == "jpeg"@ || ext == "gif"@ || ext == "svg"@ || ext == "webp"@
        || ext == "ico"@ {
        (IssueType::MissingAsset, "warning"@, "返回透明占位图片替代 '"@ + path + "'（仅控制台警告，不影响页面渲染）"@)
    } else if ext == "vue"@ || ext == "js"@ || ext == "jsx"@ || ext == "ts"@ || ext == "tsx"@ || ext.len() == 0 {
        (
            IssueType::MissingLocalFile,
            "warning"@,
            "生成桩模块替代 '"@ + path + "'（仅显示 [Missing Component]，页面不崩溃）"@,
        )
    } else {
        (IssueType::MissingLocalFile, "info"@, "跳过缺失的文件引用 '"@ + path + "'"@)
    };
    (
        kind,
        path,
        source,
        Some(line),
        "文件 '"@ + path + "' 在 '"@ + source + "' 中引用，但未找到"@,
        solution,
        severity,
        true,
    )
}

/// The packages of `imported`, each once, that are neither declared, nor
/// recorded as resolved, nor installed.
pub open spec fn uninstalled_upto(
    imported: Seq<Seq<char>>,
    k: int,
    declared: Set<Seq<char>>,
    resolved: Set<Seq<char>>,
    installed: Seq<Seq<char>>,
    on_disk: Seq<Seq<char>>,
) -> Seq<Seq<char>>
    decreases k,
{
    if k <= 0 {
        Seq::empty()
    } else {
        let acc = uninstalled_upto(imported, k - 1, declared, resolved, installed, on_disk);
        let p = imported[k - 1];
        if !declared.contains(p) && !resolved.contains(p) && !installed.contains(p) && !on_disk.contains(p)
            && !acc.contains(p) {
            acc.push(p)
        } else {
            acc
        }
    }
}

/// Finds problems with what a project's sources import.
#[derive(Debug)]
pub struct DependencyScanner {
    project_root: PathBuf,
    declared_deps: StrMap<String>,
    iris_resolved: StrMap<String>,
    installed_packages: Vec<String>,
}

/// Whether `v` holds `s`.
fn strs_hold(v: &Vec<String>, s: &str) -> (r: bool)
    ensures
        r == str_views(v@).contains(s@),
{
    let mut i: usize = 0;
    while i < v.len()
        invariant
            i <= v@.len(),
            forall|j: int| 0 <= j < i ==> v@[j]@ != s@,
        decreases v@.len() - i,
    {
        if str_eq(v[i].as_str(), s) {
            assert(str_views(v@)[i as int] == s@);
            return true;
        }
        i = i + 1;
    }
    proof {
        if str_views(v@).contains(s@) {
            let j = choose|j: int| 0 <= j < str_views(v@).len() && str_views(v@)[j] == s@;
            assert(v@[j]@ == s@);
        }
    }
    false
}

/// The string of the given literal pieces and values, concatenated.
fn join3(a: &str, b: &str, c: &str) -> (r: String)
    ensures
        r@ == a@ + b@ + c@,
{
    owned(a).concat(b).concat(c)
}

impl DependencyScanner {
    /// Packages declared in `package.json`, with their version ranges.
    pub closed spec fn declared(&self) -> Map<Seq<char>, Seq<char>> {
        self.declared_deps.sview()
    }

    /// Versions recorded in `irisResolved`.
    pub closed spec fn resolved(&self) -> Map<Seq<char>, Seq<char>> {
        self.iris_resolved.sview()
    }

    /// Packages installed under `node_modules`.
    pub closed spec fn installed(&self) -> Seq<Seq<char>> {
        str_views(self.installed_packages@)
    }

    /// A scanner for a project, with what its `package.json` declares, what
    /// it records in `irisResolved`, and the packages under `node_modules`.
    pub fn new(
        project_root: PathBuf,
        declared_deps: StrMap<String>,
        iris_resolved: StrMap<String>,
        installed_packages: Vec<String>,
    ) -> (s: Self)
        ensures
            s.declared() == declared_deps.sview(),
            s.resolved() == iris_resolved.sview(),
            s.installed() == str_views(installed_packages@),
    {
        DependencyScanner { project_root, declared_deps, iris_resolved, installed_packages }
    }

    /// The project root.
    pub fn project_root(&self) -> &PathBuf {
        &self.project_root
    }

    /// The versions recorded in `irisResolved`.
    pub fn iris_resolved(&self) -> (r: &StrMap<String>)
        ensures
            r.sview() == self.resolved(),
    {
        &self.iris_resolved
    }

    /// The packages declared in `package.json`.
    pub fn declared_deps(&self) -> (r: &StrMap<String>)
        ensures
            r.sview() == self.declared(),
    {
        &self.declared_deps
    }

    /// The packages installed under `node_modules`.
    pub fn installed_packages(&self) -> (r: &Vec<String>)
        ensures
            str_views(r@) == self.installed(),
    {
        &self.installed_packages
    }

    /// Whether a (trimmed) line is an `import` whose `from` clause ends at
    /// its opening quote, which `extract_import_path` cannot read.
    pub fn is_malformed_import_line(line: &str) -> (r: bool)
        ensures
            r == import_line_malformed(line@),
    {
        let l = chars_of(line);
        let kw = chars_of("import ");
        starts_with_exec(&l, &kw) && from_clause_ends_early(&l)
    }

    /// The module a (trimmed) line imports, if it imports one.
    pub fn extract_import_path(&self, line: &str) -> (r: Option<String>)
        requires
            !import_line_malformed(line@),
        ensures
            match r {
                Some(x) => import_of_line(line@) == Some(x@),
                None => import_of_line(line@) is None,
            },
    {
        let l = chars_of(line);
        let llen = l.len();
        let kw = chars_of("import ");
        proof {
            reveal_strlit("from '");
            reveal_strlit("from \"");
            reveal_strlit("import '");
            reveal_strlit("require('");
            reveal_strlit("import('");
        }
        if starts_with_exec(&l, &kw) {
            let sq = from_clause_exec(&l, "from '", '\'');
            match sq {
                Some(x) => {
                    return Some(x);
                },
                None => {},
            }
            proof {
                if find(line@, "from '"@) is Some {
                    let s = find(line@, "from '"@)->0;
                    lemma_find_from(line@, "from '"@, 0);
                    assert(match_at(line@, seq!['\''], s + 5)) by {
                        assert(line@.subrange(s, s + 6) == "from '"@);
                        assert("from '"@[5] == '\'');
                        assert(line@.subrange(s, s + 6)[5] == line@[s + 5]);
                        assert(line@.subrange(s + 5, s + 6) =~= seq!['\'']);
                    }
                    lemma_rfind_last(line@, seq!['\''], line@.len() - 1, s + 5);
                }
                assert(find(line@, "from '"@) is None);
            }
            let dq = from_clause_exec(&l, "from \"", '"');
            match dq {
                Some(x) => {
                    return Some(x);
                },
                None => {},
            }
            let bare = chars_of("import '");
            match find_exec(&l, &bare) {
                Some(s) => {
                    proof {
                        lemma_find_from(l@, bare@, 0);
                    }
                    let q = quoted_from_exec(&l, s + 8, '\'');
                    match q {
                        Some(x) => {
                            return Some(x);
                        },
                        None => {},
                    }
                },
                None => {},
            }
        }
        let req = chars_of("require(");
        if find_exec(&l, &req).is_some() {
            let req_q = chars_of("require('");
            match find_exec(&l, &req_q) {
                Some(s) => {
                    proof {
                        lemma_find_from(l@, req_q@, 0);
                    }
                    let q = quoted_from_exec(&l, s + 9, '\'');
                    match q {
                        Some(x) => {
                            return Some(x);
                        },
                        None => {},
                    }
                },
                None => {},
            }
        }
        let dynk = chars_of("import(");
        let from_sp = chars_of(" from ");
        if find_exec(&l, &dynk).is_some() && find_exec(&l, &from_sp).is_none() {
            let dyn_q = chars_of("import('");
            match find_exec(&l, &dyn_q) {
                Some(s) => {
                    proof {
                        lemma_find_from(l@, dyn_q@, 0);
                    }
                    return quoted_from_exec(&l, s + 8, '\'');
                },
                None => {},
            }
        }
        None
    }

    /// The imports of a source file, with their line numbers (from 1),
    /// on lines that are not comments.
    pub fn imports_in_source(&self, content: &str) -> (r: Vec<(String, usize)>)
        requires
            forall|i: int|
                0 <= i < lines(content@).len() && !is_comment_line(trim(#[trigger] lines(content@)[i]))
                    ==> !import_line_malformed(trim(lines(content@)[i])),
        ensures
            r@.map_values(|p: (String, usize)| (p.0@, p.1 as int)) == source_imports_upto(
                lines(content@),
                lines(content@).len() as int,
            ),
    {
        let cs = chars_of(content);
        let ranges = line_ranges(&cs);
        let c1 = chars_of("//");
        let c2 = chars_of("/*");
        let c3 = chars_of("*");
        let mut out: Vec<(String, usize)> = Vec::new();
        let mut i: usize = 0;
        while i < ranges.len()
            invariant
                i <= ranges@.len(),
                cs@ == content@,
                c1@ == "//"@,
                c2@ == "/*"@,
                c3@ == "*"@,
                pieces(cs@, ranges@) == lines(content@),
                valid_ranges(cs@, ranges@),
                forall|i: int|
                    0 <= i < lines(content@).len() && !is_comment_line(trim(#[trigger] lines(content@)[i]))
                        ==> !import_line_malformed(trim(lines(content@)[i])),
                out@.map_values(|p: (String, usize)| (p.0@, p.1 as int)) == source_imports_upto(lines(content@), i as int),
            decreases ranges@.len() - i,
        {
            let (a, b) = ranges[i];
            let (x, y) = trim_bounds(&cs, a, b);
            proof {
                assert(pieces(cs@, ranges@)[i as int] == cs@.subrange(a as int, b as int));
                assert(lines(content@)[i as int] == cs@.subrange(a as int, b as int));
            }
            let t = string_of(&cs, x, y);
            let tv = chars_of(t.as_str());
            let ghost before = out@;
            if !(starts_with_exec(&tv, &c1) || starts_with_exec(&tv, &c2) || starts_with_exec(&tv, &c3)) {
                match self.extract_import_path(t.as_str()) {
                    Some(p) => {
                        out.push((p, i + 1));
                    },
                    None => {},
                }
            }
            proof {
                let f = |p: (String, usize)| (p.0@, p.1 as int);
                if out@.len() > before.len() {
                    assert(out@.map_values(f) =~= before.map_values(f).push(f(out@.last())));
                } else {
                    assert(out@ == before);
                }
            }
            i = i + 1;
        }
        out
    }

    /// The packages a source file imports, on every line.
    pub fn npm_imports_in_source(&self, content: &str) -> (r: Vec<String>)
        requires
            forall|i: int|
                0 <= i < lines(content@).len() ==> !import_line_malformed(trim(#[trigger] lines(content@)[i])),
        ensures
            str_views(r@) == package_imports_upto(lines(content@), lines(content@).len() as int),
    {
        let cs = chars_of(content);
        let ranges = line_ranges(&cs);
        let dot = chars_of(".");
        let slash = chars_of("/");
        let mut out: Vec<String> = Vec::new();
        let mut i: usize = 0;
        while i < ranges.len()
            invariant
                i <= ranges@.len(),
                cs@ == content@,
                dot@ == "."@,
                slash@ == "/"@,
                pieces(cs@, ranges@) == lines(content@),
                valid_ranges(cs@, ranges@),
                forall|i: int|
                    0 <= i < lines(content@).len() ==> !import_line_malformed(trim(#[trigger] lines(content@)[i])),
                str_views(out@) == package_imports_upto(lines(content@), i as int),
            decreases ranges@.len() - i,
        {
            let (a, b) = ranges[i];
            let (x, y) = trim_bounds(&cs, a, b);
            proof {
                assert(pieces(cs@, ranges@)[i as int] == cs@.subrange(a as int, b as int));
                assert(lines(content@)[i as int] == cs@.subrange(a as int, b as int));
            }
            let t = string_of(&cs, x, y);
            let ghost before = out@;
            match self.extract_import_path(t.as_str()) {
                Some(p) => {
                    let pv = chars_of(p.as_str());
                    if !starts_with_exec(&pv, &dot) && !starts_with_exec(&pv, &slash) {
                        out.push(p);
                    }
                },
                None => {},
            }
            assert(str_views(out@) =~= package_imports_upto(lines(content@), i + 1));
            i = i + 1;
        }
        out
    }

    /// Records the problem with a package imported by `source_file` at
    /// `line_num`, if it is not declared; `on_disk` tells whether its
    /// directory under `node_modules` holds a `package.json`.
    pub fn check_npm_package(
        &self,
        package_name: &str,
        source_file: &str,
        line_num: usize,
        on_disk: bool,
        issues: &mut Vec<DependencyIssue>,
    )
        ensures
            ({
                let declared = self.declared().dom().contains(package_name@) || self.resolved().dom().contains(package_name@);
                let installed = self.installed().contains(package_name@) || on_disk;
                if declared {
                    final(issues)@ == old(issues)@
                } else {
                    final(issues)@.len() == old(issues)@.len() + 1 && final(issues)@.take(old(issues)@.len() as int)
                        == old(issues)@ && issue_view(final(issues)@.last()) == npm_issue(
                        package_name@,
                        source_file@,
                        line_num,
                        installed,
                    )
                }
            }),
    {
        let in_deps = self.declared_deps.contains_key(package_name);
        let in_resolved = self.iris_resolved.contains_key(package_name);
        proof {
            assert(self.declared().dom() =~= self.declared_deps@.dom());
            assert(self.resolved().dom() =~= self.iris_resolved@.dom());
        }
        if in_deps || in_resolved {
            return;
        }
        let installed = strs_hold(&self.installed_packages, package_name) || on_disk;
        let version = match self.iris_resolved.get(package_name) {
            Some(v) => v.clone(),
            None => owned("latest"),
        };
        let solution = if installed {
            join3("✅ 包 '", package_name, "' 已在 node_modules 中发现 ✓，无需下载。建议将其添加到 package.json 的 dependencies 中以便版本管理。")
        } else {
            owned("📦 自动从 npm registry 下载 '").concat(package_name).concat("@").concat(version.as_str()).concat(
                "' 到 node_modules/，并写入 package.json 的 irisResolved 字段",
            )
        };
        let severity = if installed {
            owned("warning")
        } else {
            owned("error")
        };
        let description = owned("npm 包 '").concat(package_name).concat("' 在 '").concat(source_file).concat(
            "' 中引用，但未在 package.json 中声明",
        );
        issues.push(
            DependencyIssue {
                issue_type: IssueType::MissingNpmPackage,
                import_path: owned(package_name),
                source_file: owned(source_file),
                source_line: Some(line_num),
                description,
                solution,
                severity,
                can_auto_fix: !installed,
            },
        );
        assert(final(issues)@.take(old(issues)@.len() as int) =~= old(issues)@);
    }

    /// Records the problem with a local file imported by `source_file` at
    /// `line_num`, unless it was `found`.
    pub fn check_local_file(
        &self,
        import_path: &str,
        source_file: &str,
        line_num: usize,
        found: bool,
        issues: &mut Vec<DependencyIssue>,
    )
        ensures
            found ==> final(issues)@ == old(issues)@,
            !found ==> final(issues)@.len() == old(issues)@.len() + 1 && final(issues)@.take(old(issues)@.len() as int)
                == old(issues)@ && issue_view(final(issues)@.last()) == local_issue(import_path@, source_file@, line_num),
    {
        if found {
            return;
        }
        let pv = chars_of(import_path);
        let ranges = split_ranges(&pv, '.');
        proof {
            assert(split_char(pv@, '.').len() >= 1);
        }
        let last = ranges[ranges.len() - 1];
        proof {
            assert(pieces(pv@, ranges@)[ranges@.len() - 1] == pv@.subrange(last.0 as int, last.1 as int));
        }
        let ext = string_of(&pv, last.0, last.1);
        let e = ext.as_str();
        let (kind, severity, solution) = if str_eq(e, "css") || str_eq(e, "scss") || str_eq(e, "sass") || str_eq(e, "less") {
            (IssueType::MissingCssFile, owned("warning"), join3("创建空桩模块替代 '", import_path, "'（仅控制台警告，页面不崩溃）"))
        } else if str_eq(e, "png") || str_eq(e, "jpg") || str_eq(e, "jpeg") || str_eq(e, "gif") || str_eq(e, "svg")
            || str_eq(e, "webp") || str_eq(e, "ico") {
            (IssueType::MissingAsset, owned("warning"), join3("返回透明占位图片替代 '", import_path, "'（仅控制台警告，不影响页面渲染）"))
        } else if str_eq(e, "vue") || str_eq(e, "js") || str_eq(e, "jsx") || str_eq(e, "ts") || str_eq(e, "tsx")
            || ext.unicode_len() == 0 {
            (
                IssueType::MissingLocalFile,
                owned("warning"),
                join3("生成桩模块替代 '", import_path, "'（仅显示 [Missing Component]，页面不崩溃）"),
            )
        } else {
            (IssueType::MissingLocalFile, owned("info"), join3("跳过缺失的文件引用 '", import_path, "'"))
        };
        let description = owned("文件 '").concat(import_path).concat("' 在 '").concat(source_file).concat(
            "' 中引用，但未找到",
        );
        issues.push(
            DependencyIssue {
                issue_type: kind,
                import_path: owned(import_path),
                source_file: owned(source_file),
                source_line: Some(line_num),
                description,
                solution,
                severity,
                can_auto_fix: true,
            },
        );
        assert(final(issues)@.take(old(issues)@.len() as int) =~= old(issues)@);
    }

    /// Records the problem with an import, if any: a package is checked
    /// against the declarations, a path against whether it was `found`.
    pub fn check_import(
        &self,
        import_path: String,
        source_file: &str,
        line_num: usize,
        on_disk: bool,
        found: bool,
        issues: &mut Vec<DependencyIssue>,
    )
        ensures
            ({
                let declared = self.declared().dom().contains(import_path@) || self.resolved().dom().contains(import_path@);
                let installed = self.installed().contains(import_path@) || on_disk;
                if is_package_import(import_path@) {
                    if declared {
                        final(issues)@ == old(issues)@
                    } else {
                        final(issues)@.len() == old(issues)@.len() + 1 && final(issues)@.take(old(issues)@.len() as int)
                            == old(issues)@ && issue_view(final(issues)@.last()) == npm_issue(
                            import_path@,
                            source_file@,
                            line_num,
                            installed,
                        )
                    }
                } else if found {
                    final(issues)@ == old(issues)@
                } else {
                    final(issues)@.len() == old(issues)@.len() + 1 && final(issues)@.take(old(issues)@.len() as int)
                        == old(issues)@ && issue_view(final(issues)@.last()) == local_issue(
                        import_path@,
                        source_file@,
                        line_num,
                    )
                }
            }),
    {
        let pv = chars_of(import_path.as_str());
        let dot = chars_of(".");
        let slash = chars_of("/");
        if !starts_with_exec(&pv, &dot) && !starts_with_exec(&pv, &slash) {
            self.check_npm_package(import_path.as_str(), source_file, line_num, on_disk, issues);
        } else {
            self.check_local_file(import_path.as_str(), source_file, line_num, found, issues);
        }
    }

    /// The packages, each once, among those the sources import, that are
    /// not declared, not recorded as resolved, not installed and not found
    /// under `node_modules` (`on_disk`): those to download.
    pub fn find_uninstalled_npm_packages(&self, imported: &Vec<String>, on_disk: &Vec<String>) -> (r: Vec<String>)
        ensures
            str_views(r@) == uninstalled_upto(
                str_views(imported@),
                imported@.len() as int,
                self.declared().dom(),
                self.resolved().dom(),
                self.installed(),
                str_views(on_disk@),
            ),
    {
        proof {
            assert(self.declared().dom() =~= self.declared_deps@.dom());
            assert(self.resolved().dom() =~= self.iris_resolved@.dom());
        }
        let mut out: Vec<String> = Vec::new();
        let mut i: usize = 0;
        while i < imported.len()
            invariant
                i <= imported@.len(),
                self.declared().dom() == self.declared_deps@.dom(),
                self.resolved().dom() == self.iris_resolved@.dom(),
                str_views(out@) == uninstalled_upto(
                    str_views(imported@),
                    i as int,
                    self.declared().dom(),
                    self.resolved().dom(),
                    self.installed(),
                    str_views(on_disk@),
                ),
            decreases imported@.len() - i,
        {
            let p = imported[i].as_str();
            assert(str_views(imported@)[i as int] == p@);
            if !self.declared_deps.contains_key(p) && !self.iris_resolved.contains_key(p) && !strs_hold(
                &self.installed_packages,
                p,
            ) && !strs_hold(on_disk, p) && !strs_hold(&out, p) {
                let ghost before = out@;
                out.push(imported[i].clone());
                assert(str_views(out@) =~= str_views(before).push(p@));
            }
            i = i + 1;
        }
        out
    }
}


/// What the `package.json` of an installed package says of the packages it
/// depends on: the version under each name, `None` where that entry is not
/// a string.
#[derive(Debug)]
pub struct ManifestDeps {
    /// Its `dependencies`.
    pub dependencies: StrMap<Option<String>>,
    /// Its `peerDependencies`.
    pub peer_dependencies: StrMap<Option<String>>,
}

/// The version that the installed packages, looked at in order from the
/// `i`-th, give a package: the first that names it in `dependencies`, or
/// else in `peerDependencies`, decides; an unreadable manifest ends the
/// search with nothing.
pub open spec fn transitive_version(ms: Seq<Option<ManifestDeps>>, name: Seq<char>, i: int) -> Option<Seq<char>>
    decreases ms.len() - i,
{
    if i < 0 || i >= ms.len() {
        None
    } else {
        match ms[i] {
            None => None,
            Some(m) => if m.dependencies@.dom().contains(name) {
                opt_view(m.dependencies@[name])
            } else if m.peer_dependencies@.dom().contains(name) {
                opt_view(m.peer_dependencies@[name])
            } else {
                transitive_version(ms, name, i + 1)
            },
        }
    }
}

/// A copy of a string option.
fn copy_opt(o: &Option<String>) -> (r: Option<String>)
    ensures
        opt_view(r) == opt_view(*o),
{
    match o {
        Some(s) => Some(owned(s.as_str())),
        None => None,
    }
}

impl DependencyScanner {
    /// The version that the packages under `node_modules` depend on for a
    /// package, from their manifests in the order given (`None` for one
    /// that cannot be read or parsed); `None` when none names it, and the
    /// caller falls back to `latest`.
    pub fn resolve_package_version(&self, package_name: &str, manifests: &Vec<Option<ManifestDeps>>) -> (r: Option<String>)
        ensures
            opt_view(r) == transitive_version(manifests@, package_name@, 0),
    {
        let mut i: usize = 0;
        while i < manifests.len()
            invariant
                i <= manifests@.len(),
                transitive_version(manifests@, package_name@, 0) == transitive_version(manifests@, package_name@, i as int),
            decreases manifests.len() - i,
        {
            match &manifests[i] {
                None => {
                    return None;
                },
                Some(m) => {
                    match m.dependencies.get(package_name) {
                        Some(v) => {
                            return copy_opt(v);
                        },
                        None => {},
                    }
                    match m.peer_dependencies.get(package_name) {
                        Some(v) => {
                            return copy_opt(v);
                        },
                        None => {},
                    }
                },
            }
            i = i + 1;
        }
        None
    }
}


/// The components of a path that remain when `.` and empty ones are dropped
/// and each `..` removes the one before it (if any).
pub open spec fn kept_components(segs: Seq<Seq<char>>) -> Seq<Seq<char>>
    decreases segs.len(),
{
    if segs.len() == 0 {
        seq![]
    } else {
        let st = kept_components(segs.drop_last());
        let c = segs.last();
        if c.len() == 0 || c == seq!['.'] {
            st
        } else if c == seq!['.', '.'] {
            if st.len() > 0 {
                st.drop_last()
            } else {
                st
            }
        } else {
            st.push(c)
        }
    }
}

/// Components joined by `/`.
pub open spec fn join_components(st: Seq<Seq<char>>) -> Seq<char>
    decreases st.len(),
{
    if st.len() == 0 {
        seq![]
    } else if st.len() == 1 {
        st[0]
    } else {
        join_components(st.drop_last()) + seq!['/'] + st.last()
    }
}

/// A path with `.` and `..` components resolved, as rebuilding it component
/// by component does: a `..` at the top is dropped, and an absolute path
/// stays absolute.
pub open spec fn resolve_dots(p: Seq<char>) -> Seq<char> {
    let body = join_components(kept_components(split_char(p, '/')));
    if p.len() > 0 && p[0] == '/' {
        seq!['/'] + body
    } else {
        body
    }
}

/// The views of a list of character vectors.
pub open spec fn char_views(v: Seq<Vec<char>>) -> Seq<Seq<char>> {
    v.map_values(|c: Vec<char>| c@)
}

/// A path with `.` and `..` components resolved.
fn resolve_dots_exec(p: &Vec<char>) -> (r: Vec<char>)
    ensures
        r@ == resolve_dots(p@),
{
    let ranges = split_ranges(p, '/');
    let ghost segs = split_char(p@, '/');
    let mut st: Vec<Vec<char>> = Vec::new();
    let mut i: usize = 0;
    while i < ranges.len()
        invariant
            i <= ranges@.len(),
            pieces(p@, ranges@) == segs,
            valid_ranges(p@, ranges@),
            char_views(st@) == kept_components(segs.take(i as int)),
        decreases ranges.len() - i,
    {
        let (a, b) = ranges[i];
        let c = sub_chars(p, a, b);
        assert(segs[i as int] == c@);
        assert(segs.take(i + 1).drop_last() =~= segs.take(i as int));
        assert(segs.take(i + 1).last() == c@);
        let ghost before = st@;
        if c.len() == 0 || (c.len() == 1 && c[0] == '.') {
            assert(c@.len() == 0 || c@ =~= seq!['.']);
        } else if c.len() == 2 && c[0] == '.' && c[1] == '.' {
            assert(c@ =~= seq!['.', '.']);
            if st.len() > 0 {
                st.pop();
                assert(char_views(st@) =~= char_views(before).drop_last());
            }
        } else {
            assert(c@ != seq!['.']);
            assert(c@ != seq!['.', '.']);
            st.push(c);
            assert(char_views(st@) =~= char_views(before).push(c@));
        }
        i = i + 1;
    }
    assert(segs.take(ranges@.len() as int) =~= segs);
    let mut out: Vec<char> = Vec::new();
    if p.len() > 0 && p[0] == '/' {
        out.push('/');
    }
    let ghost lead = out@;
    let ghost kept = char_views(st@);
    let mut j: usize = 0;
    while j < st.len()
        invariant
            j <= st@.len(),
            kept == char_views(st@),
            out@ == lead + join_components(kept.take(j as int)),
        decreases st.len() - j,
    {
        assert(kept.take(j + 1).drop_last() =~= kept.take(j as int));
        assert(kept.take(j + 1).last() == st@[j as int]@);
        if j > 0 {
            out.push('/');
        } else {
            assert(kept.take(1) =~= seq![st@[0]@]);
        }
        append_chars(&mut out, &st[j]);
        assert(out@ =~= lead + join_components(kept.take(j + 1)));
        j = j + 1;
    }
    assert(kept.take(st@.len() as int) =~= kept);
    out
}

/// The extensions tried, in order, for a local import that is not found as
/// written.
pub open spec fn local_exts() -> Seq<Seq<char>> {
    seq![""@, ".vue"@, ".js"@, ".ts"@, ".jsx"@, ".tsx"@, ".mjs"@, ".css"@, ".scss"@]
}

/// The path a local import names: a `/` path under the project root, or a
/// `./` or `../` path next to the importing file with its dots resolved.
pub open spec fn local_import_base(root: Seq<char>, import_path: Seq<char>, importer: Seq<char>) -> Option<Seq<char>> {
    if starts_with(import_path, "/"@) {
        Some(join_unix(root, import_path.subrange(1, import_path.len() as int)))
    } else if starts_with(import_path, "./"@) || starts_with(import_path, "../"@) {
        match parent_of(importer) {
            Some(d) => Some(resolve_dots(join_unix(d, import_path))),
            None => None,
        }
    } else {
        None
    }
}

/// Where a local import may be found, in the order tried: a `/` path only
/// as written; a relative one as written and then with each extension.
pub open spec fn local_candidates(root: Seq<char>, import_path: Seq<char>, importer: Seq<char>) -> Seq<Seq<char>> {
    match local_import_base(root, import_path, importer) {
        None => seq![],
        Some(b) => if starts_with(import_path, "/"@) {
            seq![b]
        } else {
            seq![b] + local_exts().map_values(|e: Seq<char>| b + e)
        },
    }
}

/// The paths at which a local import may be found, in the order they are
/// tried; the import is found when one of them exists (a directory counts).
/// Empty for an import that is not local, or whose importer has no parent.
pub fn local_import_candidates(project_root: &str, import_path: &str, importer: &str) -> (r: Vec<String>)
    ensures
        str_views(r@) == local_candidates(project_root@, import_path@, importer@),
{
    let ip = chars_of(import_path);
    let slash = chars_of("/");
    let dot = chars_of("./");
    let dots = chars_of("../");
    let mut out: Vec<String> = Vec::new();
    if starts_with_exec(&ip, &slash) {
        proof {
            reveal_strlit("/");
        }
        let rest = sub_chars(&ip, 1, ip.len());
        let rv = chars_of(project_root);
        let b = join_unix_exec(&rv, &rest);
        out.push(string_of_all(&b));
        assert(str_views(out@) =~= seq![b@]);
        return out;
    }
    if !(starts_with_exec(&ip, &dot) || starts_with_exec(&ip, &dots)) {
        assert(str_views(out@) =~= Seq::<Seq<char>>::empty());
        return out;
    }
    let d = match path_parent(importer) {
        Some(d) => d,
        None => {
            assert(str_views(out@) =~= Seq::<Seq<char>>::empty());
            return out;
        },
    };
    let dv = chars_of(d.as_str());
    let joined = join_unix_exec(&dv, &ip);
    let b = resolve_dots_exec(&joined);
    let ghost bv = b@;
    out.push(string_of_all(&b));
    let exts: Vec<&str> = vec!["", ".vue", ".js", ".ts", ".jsx", ".tsx", ".mjs", ".css", ".scss"];
    assert(exts@.map_values(|e: &str| e@) =~= local_exts());
    let ghost want = seq![bv] + local_exts().map_values(|e: Seq<char>| bv + e);
    let mut k: usize = 0;
    while k < exts.len()
        invariant
            k <= exts@.len(),
            b@ == bv,
            exts@.map_values(|e: &str| e@) == local_exts(),
            want == seq![bv] + local_exts().map_values(|e: Seq<char>| bv + e),
            str_views(out@) == want.take(k + 1),
        decreases exts.len() - k,
    {
        let ghost before = out@;
        let s = String::from_str(string_of_all(&b).as_str()).concat(exts[k]);
        assert(exts@.map_values(|e: &str| e@)[k as int] == exts@[k as int]@);
        out.push(s);
        assert(str_views(out@) =~= str_views(before).push(bv + exts@[k as int]@));
        assert(want.take(k + 2) =~= want.take(k + 1).push(bv + local_exts()[k as int]));
        k = k + 1;
    }
    assert(want.take(exts@.len() + 1 as int) =~= want);
    out
}

} // verus!
