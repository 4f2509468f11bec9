//! The dependency tree of a project: its packages, which of them are build
//! tools, a hash to notice changes, and the modules a change affects.
use vstd::prelude::*;
use std::collections::hash_map::DefaultHasher;
use std::hash::Hasher;
use std::path::{Path, PathBuf};
use vstd::std_specs::hash::DefaultHasherAdditionalSpecFns;
use crate::strmap::StrMap;
use crate::text::{owned, str_eq, starts_with, chars_of, starts_with_exec, split_char, split_ranges, string_of, pieces};
use crate::layout::cache::{str_hash_writes, hash_string_into, str_lt, sort_by_key, insert_pos, StylePair, lemma_sort_order_free};
use crate::layout::cache::distinct_keys as cache_distinct_keys;
use crate::jetcrab::module::{str_views, copy_strings, to_path_buf, copy_path};
use crate::jetcrab::esm::{opt_str, add_new, add_new_exec};
use crate::engine::manifest::{declared_dependencies, declared_entries, declared_view, installed_manifest, installed_version_of, installed_deps_of};
use crate::jetcrab::web_apis::json_error;

verus! {

/// Packages that only build, lint or test a project.
pub open spec fn build_tools() -> Seq<Seq<char>> {
    seq![
        "vite"@, "webpack"@, "webpack-cli"@, "webpack-dev-server"@, "rollup"@, "parcel"@, "esbuild"@, "swc"@,
        "babel-loader"@, "@babel/core"@, "@babel/preset-env"@, "@babel/preset-typescript"@, "typescript"@,
        "ts-loader"@, "ts-node"@, "eslint"@, "prettier"@, "stylelint"@, "eslint-loader"@, "css-loader"@,
        "sass-loader"@, "less-loader"@, "jest"@, "vitest"@, "mocha"@, "chai"@, "nodemon"@, "concurrently"@,
        "cross-env"@,
    ]
}

/// The build tools as strings.
fn build_tool_list() -> (r: Vec<&'static str>)
    ensures
        r@.map_values(|s: &str| s@) == build_tools(),
{
    let r = vec![
        "vite", "webpack", "webpack-cli", "webpack-dev-server", "rollup", "parcel", "esbuild", "swc",
        "babel-loader", "@babel/core", "@babel/preset-env", "@babel/preset-typescript", "typescript",
        "ts-loader", "ts-node", "eslint", "prettier", "stylelint", "eslint-loader", "css-loader",
        "sass-loader", "less-loader", "jest", "vitest", "mocha", "chai", "nodemon", "concurrently",
        "cross-env",
    ];
    assert(r@.map_values(|s: &str| s@) =~= build_tools());
    r
}

/// Whether a package is a build tool: one of them, or one of them with a
/// version after `@`.
pub open spec fn is_build_tool_spec(name: Seq<char>) -> bool {
    exists|i: int| 0 <= i < build_tools().len() && (name == build_tools()[i] || starts_with(name, build_tools()[i] + "@"@))
}

/// A dependency of the project.
#[derive(Debug)]
pub struct DependencyInfo {
    /// Package name.
    pub name: String,
    /// Version range asked for.
    pub version_req: String,
    /// Version found installed.
    pub installed_version: Option<String>,
    /// Whether it is a development dependency.
    pub is_dev_dependency: bool,
    /// Whether it is a build tool.
    pub is_build_tool: bool,
    /// Where it is installed.
    pub package_path: Option<PathBuf>,
    /// Packages it depends on.
    pub dependencies: Vec<String>,
}

/// `b` holds the fields of `a` (but the path).
pub open spec fn dep_copied(a: DependencyInfo, b: DependencyInfo) -> bool {
    &&& a.name@ == b.name@
    &&& a.version_req@ == b.version_req@
    &&& opt_str(a.installed_version) == opt_str(b.installed_version)
    &&& a.is_dev_dependency == b.is_dev_dependency
    &&& a.is_build_tool == b.is_build_tool
    &&& a.package_path is Some == b.package_path is Some
    &&& str_views(a.dependencies@) == str_views(b.dependencies@)
}

/// A copy of an optional string.
fn copy_opt(o: &Option<String>) -> (r: Option<String>)
    ensures
        opt_str(r) == opt_str(*o),
{
    match o {
        Some(s) => Some(s.clone()),
        None => None,
    }
}

impl DependencyInfo {
    /// A dependency found in the project's manifest, with what was found of
    /// its installation; whether it is a build tool follows from its name.
    pub fn new(
        name: &str,
        version_req: &str,
        is_dev: bool,
        package_path: Option<PathBuf>,
        installed_version: Option<String>,
        dependencies: Vec<String>,
    ) -> (d: Self)
        ensures
            d.name@ == name@,
            d.version_req@ == version_req@,
            d.is_dev_dependency == is_dev,
            d.is_build_tool == is_build_tool_spec(name@),
            d.package_path == package_path,
            d.installed_version == installed_version,
            d.dependencies == dependencies,
    {
        DependencyInfo {
            name: owned(name),
            version_req: owned(version_req),
            installed_version,
            is_dev_dependency: is_dev,
            is_build_tool: DependencyTree::is_build_tool(name),
            package_path,
            dependencies,
        }
    }

    /// A copy.
    pub fn copy(&self) -> (d: Self)
        ensures
            dep_copied(*self, d),
    {
        DependencyInfo {
            name: self.name.clone(),
            version_req: self.version_req.clone(),
            installed_version: copy_opt(&self.installed_version),
            is_dev_dependency: self.is_dev_dependency,
            is_build_tool: self.is_build_tool,
            package_path: match &self.package_path {
                Some(p) => Some(copy_path(p)),
                None => None,
            },
            dependencies: copy_strings(&self.dependencies),
        }
    }
}

/// Kind of change of a dependency.
#[derive(Debug, Clone, Copy, PartialEq, Eq, Structural)]
pub enum ChangeType {
    /// Newly present.
    Added,
    /// Installed version changed.
    Updated,
    /// No longer present.
    Removed,
}

/// A dependency that changed.
#[derive(Debug, Clone)]
pub struct ChangedDependency {
    /// Package name.
    pub name: String,
    /// Installed version before.
    pub old_version: Option<String>,
    /// Installed version after.
    pub new_version: Option<String>,
    /// Kind of change.
    pub change_type: ChangeType,
}

/// The lower-case hexadecimal digit of `d`.
pub open spec fn hex_digit(d: int) -> char {
    seq!['0', '1', '2', '3', '4', '5', '6', '7', '8', '9', 'a', 'b', 'c', 'd', 'e', 'f'][d]
}

/// `n` in lower-case hexadecimal, without leading zeros (`{:x}`).
pub open spec fn hex(n: nat) -> Seq<char>
    decreases n,
{
    if n < 16 {
        seq![hex_digit(n as int)]
    } else {
        hex(n / 16) + seq![hex_digit((n % 16) as int)]
    }
}

/// Appends `n` in hexadecimal.
fn push_hex(n: u64, out: &mut Vec<char>)
    ensures
        final(out)@ == old(out)@ + hex(n as nat),
    decreases n,
{
    let digits = ['0', '1', '2', '3', '4', '5', '6', '7', '8', '9', 'a', 'b', 'c', 'd', 'e', 'f'];
    assert(digits@ == seq!['0', '1', '2', '3', '4', '5', '6', '7', '8', '9', 'a', 'b', 'c', 'd', 'e', 'f']);
    if n >= 16 {
        push_hex(n / 16, out);
    }
    let d = (n % 16) as usize;
    out.push(digits[d]);
    assert(out@ =~= old(out)@ + hex(n as nat));
}

/// `n` in lower-case hexadecimal.
pub fn to_hex(n: u64) -> (s: String)
    ensures
        s@ == hex(n as nat),
{
    let mut v: Vec<char> = Vec::new();
    push_hex(n, &mut v);
    assert(v@ =~= hex(n as nat));
    crate::text::string_of_all(&v)
}

/// Names as pairs with an empty value, to be sorted by key.
pub open spec fn name_pairs(ks: Seq<Seq<char>>) -> Seq<StylePair> {
    ks.map_values(|k: Seq<char>| (k, Seq::<char>::empty()))
}

/// The names sorted (by code point, stably).
pub open spec fn sorted_names(ks: Seq<Seq<char>>) -> Seq<Seq<char>> {
    sort_by_key(name_pairs(ks)).map_values(|p: StylePair| p.0)
}

/// The writes hashing the dependencies named, in order: the name, the
/// version asked for, and the installed version when known.
pub open spec fn dep_writes(names: Seq<Seq<char>>, m: Map<Seq<char>, DependencyInfo>) -> Seq<Seq<u8>>
    decreases names.len(),
{
    if names.len() == 0 {
        Seq::empty()
    } else {
        let n = names.last();
        let rest = dep_writes(names.drop_last(), m);
        if m.contains_key(n) {
            let d = m[n];
            rest + str_hash_writes(n) + str_hash_writes(d.version_req@) + match d.installed_version {
                Some(v) => str_hash_writes(v@),
                None => Seq::empty(),
            }
        } else {
            rest
        }
    }
}

/// The dependency hash of a set of dependencies.
pub open spec fn dependency_hash_of(deps: StrMap<DependencyInfo>) -> Seq<char> {
    hex(DefaultHasher::spec_finish(dep_writes(sorted_names(deps.key_seq()), deps@)) as nat)
}

/// The changes from `old` to `new`: for each dependency of `new` (in order)
/// that is new, an addition, or whose installed version differs, an update
/// (an addition when none was installed); then for each dependency of `old`
/// missing from `new`, a removal.
pub open spec fn change_of_new(o: Map<Seq<char>, DependencyInfo>, n: Map<Seq<char>, DependencyInfo>, k: Seq<char>) -> Option<(Seq<char>, Option<Seq<char>>, Option<Seq<char>>, ChangeType)> {
    if o.contains_key(k) {
        if opt_str(o[k].installed_version) != opt_str(n[k].installed_version) {
            Some((k, opt_str(o[k].installed_version), opt_str(n[k].installed_version), if o[k].installed_version is None {
                ChangeType::Added
            } else {
                ChangeType::Updated
            }))
        } else {
            None
        }
    } else {
        Some((k, None, opt_str(n[k].installed_version), ChangeType::Added))
    }
}

/// The changes for the first `i` keys of `new`.
pub open spec fn changes_new_upto(o: Map<Seq<char>, DependencyInfo>, n: Map<Seq<char>, DependencyInfo>, ks: Seq<Seq<char>>, i: int) -> Seq<(Seq<char>, Option<Seq<char>>, Option<Seq<char>>, ChangeType)>
    decreases i,
{
    if i <= 0 {
        Seq::empty()
    } else {
        changes_new_upto(o, n, ks, i - 1) + match change_of_new(o, n, ks[i - 1]) {
            Some(c) => seq![c],
            None => Seq::empty(),
        }
    }
}

/// The removals for the first `i` keys of `old`.
pub open spec fn removals_upto(o: Map<Seq<char>, DependencyInfo>, n: Map<Seq<char>, DependencyInfo>, ks: Seq<Seq<char>>, i: int) -> Seq<(Seq<char>, Option<Seq<char>>, Option<Seq<char>>, ChangeType)>
    decreases i,
{
    if i <= 0 {
        Seq::empty()
    } else {
        removals_upto(o, n, ks, i - 1) + if n.contains_key(ks[i - 1]) {
            Seq::empty()
        } else {
            seq![(ks[i - 1], opt_str(o[ks[i - 1]].installed_version), None::<Seq<char>>, ChangeType::Removed)]
        }
    }
}

/// A change by its views.
pub open spec fn change_view(c: ChangedDependency) -> (Seq<char>, Option<Seq<char>>, Option<Seq<char>>, ChangeType) {
    (c.name@, opt_str(c.old_version), opt_str(c.new_version), c.change_type)
}

/// The modules, in order, that depend on a changed package, each once.
pub open spec fn rebuild_upto(
    changes: Seq<Seq<char>>,
    mods: Seq<Seq<char>>,
    deps: Map<Seq<char>, Seq<Seq<char>>>,
    i: int,
    j: int,
) -> Seq<Seq<char>>
    decreases i, j,
{
    if i <= 0 {
        Seq::empty()
    } else if j <= 0 {
        rebuild_upto(changes, mods, deps, i - 1, mods.len() as int)
    } else {
        let acc = rebuild_upto(changes, mods, deps, i, j - 1);
        let m = mods[j - 1];
        if deps[m].contains(changes[i - 1]) {
            add_new(acc, m)
        } else {
            acc
        }
    }
}

/// The dependencies by name, a later one replacing an earlier of the same name.
pub open spec fn deps_map(s: Seq<DependencyInfo>) -> Map<Seq<char>, DependencyInfo>
    decreases s.len(),
{
    if s.len() == 0 {
        Map::empty()
    } else {
        deps_map(s.drop_last()).insert(s.last().name@, s.last())
    }
}

/// The dependencies that are not build tools, in order.
pub open spec fn runtime_entries(s: Seq<DependencyInfo>) -> Seq<DependencyInfo>
    decreases s.len(),
{
    if s.len() == 0 {
        Seq::empty()
    } else if s.last().is_build_tool {
        runtime_entries(s.drop_last())
    } else {
        runtime_entries(s.drop_last()).push(s.last())
    }
}

/// What was found on disk of a declared package: the directory it is
/// installed in, and the text of its manifest where it has a readable one.
#[derive(Debug)]
pub struct InstalledPackage {
    /// The package's directory.
    pub path: PathBuf,
    /// Its `package.json`, if it could be read.
    pub manifest: Option<String>,
}

/// `d` is the dependency that the declared entry `e` gives, with what
/// `installs` holds of the package: its directory, and the version and
/// dependencies its manifest names; nothing of an uninstalled one.
pub open spec fn dep_from(d: DependencyInfo, e: (Seq<char>, Seq<char>, bool), installs: Map<Seq<char>, InstalledPackage>) -> bool {
    &&& d.name@ == e.0
    &&& d.version_req@ == e.1
    &&& d.is_dev_dependency == e.2
    &&& d.is_build_tool == is_build_tool_spec(e.0)
    &&& if installs.contains_key(e.0) {
        &&& d.package_path == Some(installs[e.0].path)
        &&& opt_str(d.installed_version) == installed_version_of(opt_str(installs[e.0].manifest))
        &&& str_views(d.dependencies@) == installed_deps_of(opt_str(installs[e.0].manifest))
    } else {
        &&& d.package_path is None
        &&& d.installed_version is None
        &&& d.dependencies@.len() == 0
    }
}

/// Each of `found` is the dependency that the declared entry at the same
/// position gives.
pub open spec fn deps_from(found: Seq<DependencyInfo>, entries: Seq<(Seq<char>, Seq<char>, bool)>, installs: Map<Seq<char>, InstalledPackage>) -> bool {
    &&& found.len() == entries.len()
    &&& forall|i: int| 0 <= i < found.len() ==> dep_from(#[trigger] found[i], entries[i], installs)
}

/// The last dependency of a name is the one kept under it.
proof fn lemma_deps_map_last(found: Seq<DependencyInfo>, i: int)
    requires
        0 <= i < found.len(),
        forall|j: int| i < j < found.len() ==> #[trigger] found[j].name@ != found[i].name@,
    ensures
        deps_map(found).contains_key(found[i].name@),
        deps_map(found)[found[i].name@] == found[i],
    decreases found.len(),
{
    if i < found.len() - 1 {
        lemma_deps_map_last(found.drop_last(), i);
        assert(found.last().name@ != found[i].name@);
    }
}

/// Of the entries a manifest declares under one name, the last (a
/// development one where the name is in both sections) gives the
/// dependency kept under that name.
pub proof fn lemma_last_declared_wins(
    found: Seq<DependencyInfo>,
    entries: Seq<(Seq<char>, Seq<char>, bool)>,
    installs: Map<Seq<char>, InstalledPackage>,
    i: int,
)
    requires
        deps_from(found, entries, installs),
        0 <= i < entries.len(),
        forall|j: int| i < j < entries.len() ==> #[trigger] entries[j].0 != entries[i].0,
    ensures
        deps_map(found).contains_key(entries[i].0),
        dep_from(deps_map(found)[entries[i].0], entries[i], installs),
{
    assert(dep_from(found[i], entries[i], installs));
    assert forall|j: int| i < j < found.len() implies #[trigger] found[j].name@ != found[i].name@ by {
        assert(dep_from(found[j], entries[j], installs));
    }
    lemma_deps_map_last(found, i);
}

/// The dependency tree of a project.
#[derive(Debug)]
pub struct DependencyTree {
    /// Project root.
    pub project_root: PathBuf,
    /// All dependencies by name.
    pub dependencies: StrMap<DependencyInfo>,
    /// The dependencies that are not build tools.
    pub runtime_dependencies: StrMap<DependencyInfo>,
    /// Hash of the dependencies, to notice changes.
    pub dependency_hash: String,
}


/// Whether two optional strings hold the same characters.
fn opt_str_eq(a: &Option<String>, b: &Option<String>) -> (r: bool)
    ensures
        r == (opt_str(*a) == opt_str(*b)),
{
    match (a, b) {
        (Some(x), Some(y)) => str_eq(x.as_str(), y.as_str()),
        (None, None) => true,
        _ => false,
    }
}

/// Whether a list of strings holds `s`.
fn strs_contain(v: &Vec<String>, s: &str) -> (r: bool)
    ensures
        r == str_views(v@).contains(s@),
{
    let mut i: usize = 0;
    while i < v.len()
        invariant
            i <= v@.len(),
            forall|j: int| 0 <= j < i ==> v@[j]@ != s@,
        decreases v@.len() - i,
    {
        if str_eq(v[i].as_str(), s) {
            assert(str_views(v@)[i as int] == s@);
            return true;
        }
        i = i + 1;
    }
    proof {
        if str_views(v@).contains(s@) {
            let j = choose|j: int| 0 <= j < str_views(v@).len() && str_views(v@)[j] == s@;
            assert(v@[j]@ == s@);
        }
    }
    false
}

/// The names of the changes.
pub open spec fn change_names(c: Seq<ChangedDependency>) -> Seq<Seq<char>> {
    c.map_values(|x: ChangedDependency| x.name@)
}

/// The dependency names of each module, by their characters.
pub open spec fn module_dep_views(m: StrMap<Vec<String>>) -> Map<Seq<char>, Seq<Seq<char>>> {
    m@.map_values(|v: Vec<String>| str_views(v@))
}

/// The changes from the dependencies of `o` to those of `n`, in order.
pub open spec fn changes_between(o: StrMap<DependencyInfo>, n: StrMap<DependencyInfo>) -> Seq<(Seq<char>, Option<Seq<char>>, Option<Seq<char>>, ChangeType)> {
    changes_new_upto(o@, n@, n.key_seq(), n.key_seq().len() as int) + removals_upto(o@, n@, o.key_seq(), o.key_seq().len() as int)
}

/// Names that are pairwise distinct, as pairs, are pairwise distinct by key.
proof fn lemma_name_pairs_distinct(ks: Seq<Seq<char>>)
    requires
        forall|i: int, j: int| 0 <= i < ks.len() && 0 <= j < ks.len() && i != j ==> ks[i] != ks[j],
    ensures
        cache_distinct_keys(name_pairs(ks)),
        name_pairs(ks).no_duplicates(),
{
    let p = name_pairs(ks);
    assert forall|i: int, j: int| 0 <= i < p.len() && 0 <= j < p.len() && i != j implies #[trigger] p[i].0 != #[trigger] p[j].0 by {
        assert(p[i].0 == ks[i] && p[j].0 == ks[j]);
    }
}

/// The same distinct names in two orders, as pairs, are the same multiset.
proof fn lemma_name_pairs_perm(k1: Seq<Seq<char>>, k2: Seq<Seq<char>>)
    requires
        forall|i: int, j: int| 0 <= i < k1.len() && 0 <= j < k1.len() && i != j ==> k1[i] != k1[j],
        forall|i: int, j: int| 0 <= i < k2.len() && 0 <= j < k2.len() && i != j ==> k2[i] != k2[j],
        forall|k: Seq<char>| k1.contains(k) <==> k2.contains(k),
    ensures
        name_pairs(k1).to_multiset() == name_pairs(k2).to_multiset(),
{
    broadcast use vstd::seq_lib::group_to_multiset_ensures;

    let p1 = name_pairs(k1);
    let p2 = name_pairs(k2);
    lemma_name_pairs_distinct(k1);
    lemma_name_pairs_distinct(k2);
    p1.lemma_multiset_has_no_duplicates();
    p2.lemma_multiset_has_no_duplicates();
    assert forall|x: StylePair| p1.contains(x) <==> p2.contains(x) by {
        if p1.contains(x) {
            let i = choose|i: int| 0 <= i < p1.len() && p1[i] == x;
            assert(k1.contains(k1[i]));
            let j = choose|j: int| 0 <= j < k2.len() && k2[j] == k1[i];
            assert(p2[j] == x);
        }
        if p2.contains(x) {
            let i = choose|i: int| 0 <= i < p2.len() && p2[i] == x;
            assert(k2.contains(k2[i]));
            let j = choose|j: int| 0 <= j < k1.len() && k1[j] == k2[i];
            assert(p1[j] == x);
        }
    }
    assert forall|x: StylePair| p1.to_multiset().count(x) == p2.to_multiset().count(x) by {
        if p1.contains(x) {
            assert(p1.to_multiset().contains(x));
            assert(p2.to_multiset().contains(x));
        }
    }
    assert(p1.to_multiset() =~= p2.to_multiset());
}

/// The dependency hash does not depend on the order in which dependencies
/// were recorded: two maps of the same dependencies hash alike.
pub proof fn lemma_hash_order_free(a: StrMap<DependencyInfo>, b: StrMap<DependencyInfo>)
    requires
        a.inv(),
        b.inv(),
        a@ == b@,
    ensures
        dependency_hash_of(a) == dependency_hash_of(b),
{
    a.lemma_keys();
    b.lemma_keys();
    lemma_name_pairs_perm(a.key_seq(), b.key_seq());
    lemma_name_pairs_distinct(a.key_seq());
    lemma_sort_order_free(name_pairs(a.key_seq()), name_pairs(b.key_seq()));
}

impl DependencyTree {
    /// Whether a package is a build tool, which the runtime does not need.
    pub fn is_build_tool(name: &str) -> (r: bool)
        ensures
            r == is_build_tool_spec(name@),
    {
        let tools = build_tool_list();
        let n = chars_of(name);
        let mut i: usize = 0;
        while i < tools.len()
            invariant
                i <= tools@.len(),
                tools@.map_values(|s: &str| s@) == build_tools(),
                n@ == name@,
                forall|k: int|
                    0 <= k < i ==> !(name@ == build_tools()[k] || starts_with(name@, build_tools()[k] + "@"@)),
            decreases tools.len() - i,
        {
            let tool = tools[i];
            assert(tool@ == build_tools()[i as int]);
            if str_eq(name, tool) {
                return true;
            }
            let mut t = chars_of(tool);
            t.push('@');
            proof {
                reveal_strlit("@");
                assert(t@ =~= tool@ + "@"@);
            }
            if starts_with_exec(n.as_slice(), t.as_slice()) {
                return true;
            }
            i = i + 1;
        }
        false
    }

    /// The names of a map of dependencies, sorted.
    fn sorted_keys(dependencies: &StrMap<DependencyInfo>) -> (r: Vec<String>)
        ensures
            str_views(r@) == sorted_names(dependencies.key_seq()),
    {
        let ghost ks = dependencies.key_seq();
        let n = dependencies.len();
        let mut sorted: Vec<String> = Vec::new();
        let mut i: usize = 0;
        while i < n
            invariant
                i <= n,
                n == ks.len(),
                ks == dependencies.key_seq(),
                str_views(sorted@) == sorted_names(ks.take(i as int)),
            decreases n - i,
        {
            let name = dependencies.key_at(i).clone();
            let ghost x: StylePair = (name@, Seq::<char>::empty());
            let ghost r = sort_by_key(name_pairs(ks.take(i as int)));
            assert(str_views(sorted@).len() == sorted@.len());
            assert(r.len() == sorted@.len());
            assert forall|q: int| 0 <= q < r.len() implies #[trigger] r[q].0 == sorted@[q]@ by {
                assert(str_views(sorted@)[q] == r.map_values(|p: StylePair| p.0)[q]);
            }
            let mut j: usize = 0;
            while j < sorted.len() && !str_lt(&name, &sorted[j])
                invariant
                    j <= sorted@.len(),
                    r.len() == sorted@.len(),
                    forall|q: int| 0 <= q < r.len() ==> #[trigger] r[q].0 == sorted@[q]@,
                    name@ == x.0,
                    insert_pos(r, x, 0) == insert_pos(r, x, j as int),
                decreases sorted@.len() - j,
            {
                j = j + 1;
            }
            let ghost old_sorted = sorted@;
            sorted.insert(j, name);
            proof {
                let pv = name_pairs(ks.take(i + 1));
                assert(pv.drop_last() =~= name_pairs(ks.take(i as int)));
                assert(pv.last() == x);
                assert(sort_by_key(pv) == r.insert(j as int, x));
                assert(str_views(sorted@) =~= r.insert(j as int, x).map_values(|p: StylePair| p.0)) by {
                    assert(str_views(old_sorted) =~= r.map_values(|p: StylePair| p.0));
                }
            }
            i = i + 1;
        }
        assert(ks.take(n as int) =~= ks);
        sorted
    }

    /// Hash of a set of dependencies, in hexadecimal: the names are sorted
    /// and for each the name, the version asked for and the installed
    /// version (when known) are hashed in turn.
    pub fn calculate_hash(dependencies: &StrMap<DependencyInfo>) -> (r: String)
        ensures
            r@ == dependency_hash_of(*dependencies),
    {
        let names = Self::sorted_keys(dependencies);
        let ghost sv = str_views(names@);
        let mut hasher = DefaultHasher::new();
        let mut k: usize = 0;
        while k < names.len()
            invariant
                k <= names@.len(),
                sv == str_views(names@),
                hasher@ == dep_writes(sv.take(k as int), dependencies@),
            decreases names@.len() - k,
        {
            let name = &names[k];
            proof {
                assert(sv.take(k + 1).drop_last() =~= sv.take(k as int));
                assert(sv.take(k + 1).last() == name@);
            }
            match dependencies.get(name.as_str()) {
                Some(dep) => {
                    hash_string_into(name, &mut hasher);
                    hash_string_into(&dep.version_req, &mut hasher);
                    match &dep.installed_version {
                        Some(v) => {
                            hash_string_into(v, &mut hasher);
                        },
                        None => {},
                    }
                },
                None => {},
            }
            k = k + 1;
        }
        assert(sv.take(names@.len() as int) =~= sv);
        to_hex(hasher.finish())
    }

    /// The tree of a project from the text of its `package.json` (`None`
    /// where there is none) and what was found installed of each declared
    /// package, by name: the `dependencies`, then the `devDependencies`, a
    /// development entry replacing a runtime one of the same name; the
    /// runtime dependencies are those that are not build tools.
    pub fn from_package_json(
        project_root: &Path,
        manifest_text: Option<String>,
        installs: &StrMap<InstalledPackage>,
    ) -> (r: Result<Self, String>)
        ensures
            match manifest_text {
                None => r matches Err(e) && e@ == "package.json not found"@,
                Some(t) => if json_error(t@) is Some {
                    r matches Err(e) && e@ == "Failed to parse package.json"@
                } else {
                    r matches Ok(tree) && exists|found: Seq<DependencyInfo>|
                        {
                            &&& deps_from(found, declared_entries(t@), installs@)
                            &&& tree.dependencies@ == deps_map(found)
                            &&& tree.runtime_dependencies@.dom() == deps_map(runtime_entries(found)).dom()
                            &&& forall|k: Seq<char>|
                                #[trigger] tree.runtime_dependencies@.dom().contains(k) ==> dep_copied(
                                    deps_map(runtime_entries(found))[k],
                                    tree.runtime_dependencies@[k],
                                )
                        }
                },
            },
            r matches Ok(tree) ==> tree.dependency_hash@ == dependency_hash_of(tree.dependencies),
    {
        let text = match &manifest_text {
            Some(t) => t,
            None => return Err(owned("package.json not found")),
        };
        let declared = match declared_dependencies(text.as_str()) {
            Ok(d) => d,
            Err(e) => return Err(e),
        };
        let ghost entries = declared_entries(text@);
        let mut found: Vec<DependencyInfo> = Vec::new();
        let mut i: usize = 0;
        while i < declared.len()
            invariant
                i <= declared@.len(),
                declared@.map_values(|d: (String, String, bool)| declared_view(d)) == entries,
                found@.len() == i,
                forall|j: int| 0 <= j < i ==> dep_from(#[trigger] found@[j], entries[j], installs@),
            decreases declared@.len() - i,
        {
            let (name, version, dev) = (&declared[i].0, &declared[i].1, declared[i].2);
            assert(entries[i as int] == declared_view(declared@[i as int]));
            let d = match installs.get(name.as_str()) {
                Some(ip) => {
                    let (installed, deps) = installed_manifest(&ip.manifest);
                    DependencyInfo::new(name.as_str(), version.as_str(), dev, Some(copy_path(&ip.path)), installed, deps)
                },
                None => {
                    let d = DependencyInfo::new(name.as_str(), version.as_str(), dev, None, None, Vec::new());
                    d
                },
            };
            found.push(d);
            i = i + 1;
        }
        let ghost fs = found@;
        assert(deps_from(fs, entries, installs@));
        let t = Self::from_dependencies(project_root, found);
        Ok(t)
    }

    /// A tree of the dependencies found for a project, in the order of its
    /// manifest (runtime dependencies first, then development ones; a later
    /// one of the same name replaces an earlier). The runtime dependencies are
    /// those that are not build tools.
    pub fn from_dependencies(project_root: &Path, found: Vec<DependencyInfo>) -> (t: Self)
        ensures
            t.dependencies@ == deps_map(found@),
            t.runtime_dependencies@.dom() == deps_map(runtime_entries(found@)).dom(),
            forall|k: Seq<char>|
                #[trigger] t.runtime_dependencies@.dom().contains(k) ==> dep_copied(
                    deps_map(runtime_entries(found@))[k],
                    t.runtime_dependencies@[k],
                ),
            t.dependency_hash@ == dependency_hash_of(t.dependencies),
    {
        let mut found = found;
        let ghost all = found@;
        let mut rev: Vec<DependencyInfo> = Vec::new();
        while found.len() > 0
            invariant
                found@.len() <= all.len(),
                found@ == all.take(found@.len() as int),
                rev@ == all.skip(found@.len() as int).reverse(),
            decreases found.len(),
        {
            let ghost before = found@;
            let d = found.pop().unwrap();
            rev.push(d);
            proof {
                assert(found@ =~= all.take(found@.len() as int));
                assert(rev@ =~= all.skip(found@.len() as int).reverse());
            }
        }
        let mut dependencies: StrMap<DependencyInfo> = StrMap::new();
        let mut runtime_dependencies: StrMap<DependencyInfo> = StrMap::new();
        let ghost mut done: Seq<DependencyInfo> = Seq::empty();
        assert(all.skip(0) =~= all);
        while rev.len() > 0
            invariant
                rev@.len() <= all.len(),
                done == all.take(all.len() - rev@.len()),
                rev@ == all.skip(all.len() - rev@.len()).reverse(),
                dependencies@ == deps_map(done),
                runtime_dependencies@.dom() == deps_map(runtime_entries(done)).dom(),
                forall|k: Seq<char>|
                    #[trigger] runtime_dependencies@.dom().contains(k) ==> dep_copied(
                        deps_map(runtime_entries(done))[k],
                        runtime_dependencies@[k],
                    ),
            decreases rev.len(),
        {
            let ghost i = all.len() - rev@.len();
            let d = rev.pop().unwrap();
            assert(d == all[i]);
            let name = d.name.clone();
            let ghost re = runtime_entries(done);
            let ghost rt_before = runtime_dependencies@;
            proof {
                let nd = done.push(d);
                assert(nd.drop_last() =~= done);
                if !d.is_build_tool {
                    assert(re.push(d).drop_last() =~= re);
                    assert(runtime_entries(nd) == re.push(d));
                    assert(deps_map(runtime_entries(nd)) == deps_map(re).insert(d.name@, d));
                } else {
                    assert(runtime_entries(nd) == re);
                }
            }
            if !d.is_build_tool {
                let c = d.copy();
                runtime_dependencies.insert(name.as_str(), c);
            }
            dependencies.insert(name.as_str(), d);
            proof {
                let nd = done.push(d);
                assert(nd.drop_last() =~= done);
                assert(nd =~= all.take(i + 1));
                done = nd;
                assert(rev@ =~= all.skip(all.len() - rev@.len()).reverse());
                assert(runtime_dependencies@.dom() =~= deps_map(runtime_entries(done)).dom());
                assert forall|k: Seq<char>|
                    #[trigger] runtime_dependencies@.dom().contains(k) implies dep_copied(
                        deps_map(runtime_entries(done))[k],
                        runtime_dependencies@[k],
                    ) by {
                    if !d.is_build_tool && k == d.name@ {
                    } else {
                        assert(rt_before.dom().contains(k));
                    }
                }
            }
        }
        assert(done =~= all);
        let dependency_hash = Self::calculate_hash(&dependencies);
        DependencyTree {
            project_root: to_path_buf(project_root),
            dependencies,
            runtime_dependencies,
            dependency_hash,
        }
    }

    /// Whether the dependencies differ from those of `other`, by their hashes.
    pub fn has_changed(&self, other: &DependencyTree) -> (r: bool)
        ensures
            r == (self.dependency_hash@ != other.dependency_hash@),
    {
        !str_eq(self.dependency_hash.as_str(), other.dependency_hash.as_str())
    }

    /// The dependencies that changed from `self` to `other`: first, in the
    /// order of `other`, those added or whose installed version changed, then,
    /// in the order of `self`, those removed.
    pub fn get_changed_dependencies(&self, other: &DependencyTree) -> (r: Vec<ChangedDependency>)
        ensures
            r@.map_values(|c: ChangedDependency| change_view(c)) == changes_between(self.dependencies, other.dependencies),
    {
        let ghost o = self.dependencies@;
        let ghost n = other.dependencies@;
        let ghost nk = other.dependencies.key_seq();
        let ghost ok = self.dependencies.key_seq();
        let mut changes: Vec<ChangedDependency> = Vec::new();
        let len_new = other.dependencies.len();
        proof {
            other.dependencies.lemma_key_seq_in_dom();
        }
        let mut i: usize = 0;
        while i < len_new
            invariant
                i <= len_new,
                len_new == nk.len(),
                nk == other.dependencies.key_seq(),
                o == self.dependencies@,
                n == other.dependencies@,
                changes@.map_values(|c: ChangedDependency| change_view(c)) == changes_new_upto(o, n, nk, i as int),
            decreases len_new - i,
        {
            let name = other.dependencies.key_at(i);
            let new_dep = other.dependencies.value_at(i);
            let ghost before = changes@;
            match self.dependencies.get(name.as_str()) {
                Some(old_dep) => {
                    if !opt_str_eq(&old_dep.installed_version, &new_dep.installed_version) {
                        let kind = if old_dep.installed_version.is_none() {
                            ChangeType::Added
                        } else {
                            ChangeType::Updated
                        };
                        changes.push(ChangedDependency {
                            name: name.clone(),
                            old_version: copy_opt(&old_dep.installed_version),
                            new_version: copy_opt(&new_dep.installed_version),
                            change_type: kind,
                        });
                    }
                },
                None => {
                    changes.push(ChangedDependency {
                        name: name.clone(),
                        old_version: None,
                        new_version: copy_opt(&new_dep.installed_version),
                        change_type: ChangeType::Added,
                    });
                },
            }
            proof {
                assert(changes@.map_values(|c: ChangedDependency| change_view(c)) =~= changes_new_upto(o, n, nk, i + 1)) by {
                    assert(before.map_values(|c: ChangedDependency| change_view(c)) == changes_new_upto(o, n, nk, i as int));
                    if changes@.len() > before.len() {
                        assert(changes@ == before.push(changes@.last()));
                    } else {
                        assert(changes@ == before);
                    }
                }
            }
            i = i + 1;
        }
        let ghost first = changes@.map_values(|c: ChangedDependency| change_view(c));
        let len_old = self.dependencies.len();
        let mut j: usize = 0;
        while j < len_old
            invariant
                j <= len_old,
                len_old == ok.len(),
                ok == self.dependencies.key_seq(),
                o == self.dependencies@,
                n == other.dependencies@,
                changes@.map_values(|c: ChangedDependency| change_view(c)) == first + removals_upto(o, n, ok, j as int),
            decreases len_old - j,
        {
            let name = self.dependencies.key_at(j);
            let old_dep = self.dependencies.value_at(j);
            let ghost before = changes@;
            if !other.dependencies.contains_key(name.as_str()) {
                changes.push(ChangedDependency {
                    name: name.clone(),
                    old_version: copy_opt(&old_dep.installed_version),
                    new_version: None,
                    change_type: ChangeType::Removed,
                });
            }
            proof {
                assert(changes@.map_values(|c: ChangedDependency| change_view(c)) =~= first + removals_upto(o, n, ok, j + 1)) by {
                    assert(before.map_values(|c: ChangedDependency| change_view(c)) == first + removals_upto(o, n, ok, j as int));
                    assert(name@ == ok[j as int]);
                    assert(*old_dep == o[ok[j as int]]);
                    if changes@.len() > before.len() {
                        assert(changes@ == before.push(changes@.last()));
                        assert(change_view(changes@.last()) == (ok[j as int], opt_str(o[ok[j as int]].installed_version), None::<Seq<char>>, ChangeType::Removed));
                        assert(changes@.map_values(|c: ChangedDependency| change_view(c)) =~= before.map_values(|c: ChangedDependency| change_view(c)).push(change_view(changes@.last())));
                    } else {
                        assert(changes@ == before);
                    }
                }
            }
            j = j + 1;
        }
        changes
    }

    /// The modules to compile again after `changes`: for each change in turn,
    /// each module (in the order of `module_dependencies`) that depends on the
    /// changed package, each module listed once, in order of first mention.
    pub fn get_modules_to_rebuild(
        &self,
        changes: &[ChangedDependency],
        module_dependencies: &StrMap<Vec<String>>,
    ) -> (r: Vec<String>)
        ensures
            str_views(r@) == rebuild_upto(
                change_names(changes@),
                module_dependencies.key_seq(),
                module_dep_views(*module_dependencies),
                changes@.len() as int,
                module_dependencies.key_seq().len() as int,
            ),
    {
        let ghost cn = change_names(changes@);
        let ghost mk = module_dependencies.key_seq();
        let ghost md = module_dep_views(*module_dependencies);
        let n_mods = module_dependencies.len();
        let mut out: Vec<String> = Vec::new();
        let mut c: usize = 0;
        while c < changes.len()
            invariant
                c <= changes@.len(),
                cn == change_names(changes@),
                mk == module_dependencies.key_seq(),
                md == module_dep_views(*module_dependencies),
                n_mods == mk.len(),
                str_views(out@) == rebuild_upto(cn, mk, md, c as int, n_mods as int),
            decreases changes@.len() - c,
        {
            let change = &changes[c];
            assert(rebuild_upto(cn, mk, md, c + 1, 0) == rebuild_upto(cn, mk, md, c as int, n_mods as int));
            let mut m: usize = 0;
            while m < n_mods
                invariant
                    c < changes@.len(),
                    m <= n_mods,
                    cn == change_names(changes@),
                    mk == module_dependencies.key_seq(),
                    md == module_dep_views(*module_dependencies),
                    n_mods == mk.len(),
                    change == changes@[c as int],
                    str_views(out@) == rebuild_upto(cn, mk, md, c + 1, m as int),
                decreases n_mods - m,
            {
                let module = module_dependencies.key_at(m);
                let deps = module_dependencies.value_at(m);
                proof {
                    assert(md[mk[m as int]] == str_views(deps@));
                    assert(cn[c as int] == change.name@);
                }
                if strs_contain(deps, change.name.as_str()) {
                    add_new_exec(&mut out, module.clone());
                }
                m = m + 1;
            }
            c = c + 1;
        }
        out
    }

    /// Where a package lies under `node_modules`: its name, or for a scoped
    /// package `@scope/name` the scope and the name; `None` for a scoped
    /// name that is not of that form.
    pub fn package_path_parts(name: &str) -> (r: Option<Vec<String>>)
        ensures
            r == None::<Vec<String>> <==> (starts_with(name@, "@"@) && split_char(name@, '/').len() != 2),
            r matches Some(v) ==> str_views(v@) == (if starts_with(name@, "@"@) {
                split_char(name@, '/')
            } else {
                seq![name@]
            }),
    {
        let v = chars_of(name);
        let at: Vec<char> = vec!['@'];
        proof {
            reveal_strlit("@");
            assert(at@ =~= "@"@);
        }
        if starts_with_exec(v.as_slice(), at.as_slice()) {
            let ranges = split_ranges(v.as_slice(), '/');
            if ranges.len() != 2 {
                return None;
            }
            let mut parts: Vec<String> = Vec::new();
            parts.push(string_of(v.as_slice(), ranges[0].0, ranges[0].1));
            parts.push(string_of(v.as_slice(), ranges[1].0, ranges[1].1));
            proof {
                assert(ranges@[0].0 <= ranges@[0].1 <= v@.len());
                assert(str_views(parts@) =~= pieces(v@, ranges@));
            }
            Some(parts)
        } else {
            let mut parts: Vec<String> = Vec::new();
            parts.push(owned(name));
            assert(str_views(parts@) =~= seq![name@]);
            Some(parts)
        }
    }

}

} // verus!
