//! The engine that loads a Vue project: its configuration, the module graph
//! it builds from the sources, and the checks before running.
use vstd::prelude::*;
use std::path::PathBuf;
use crate::text::{chars_of, contains, find, find_exec, lines, line_ranges, lemma_find_from, pieces, starts_with,
    starts_with_exec, string_of, sub_chars, trim, trim_bounds, valid_ranges, str_eq, owned};
use crate::jetcrab::module::{str_views, copy_path, opt_seq};
use crate::engine::module_graph::{ModuleGraph, dep_graph};
use crate::engine::hmr::HMRManager;
use crate::engine::project_scanner::ProjectInfo;

verus! {

/// Calls `PathBuf::from` on a string; nothing is stated of paths here,
/// which are carried through.
#[verifier::external_body]
fn path_from(s: &str) -> PathBuf {
    PathBuf::from(s)
}

/// Directory and file names skipped by default.
pub open spec fn default_ignores() -> Seq<Seq<char>> {
    seq!["node_modules"@, ".git"@, "dist"@, ".DS_Store"@]
}

/// How the engine runs.
#[derive(Debug)]
pub struct EngineConfig {
    /// Project root.
    pub project_root: PathBuf,
    /// Whether hot module replacement is on.
    pub hmr_enabled: bool,
    /// Whether debugging output is on.
    pub debug: bool,
    /// Names of files and directories to skip: any name holding one.
    pub ignore_patterns: Vec<String>,
}

impl Default for EngineConfig {
    /// The current directory, hot replacement on, debugging off, and the
    /// usual names skipped.
    fn default() -> (c: Self)
        ensures
            c.hmr_enabled,
            !c.debug,
            str_views(c.ignore_patterns@) == default_ignores(),
    {
        let ignore_patterns = vec![owned("node_modules"), owned(".git"), owned("dist"), owned(".DS_Store")];
        assert(str_views(ignore_patterns@) =~= default_ignores());
        EngineConfig { project_root: path_from("."), hmr_enabled: true, debug: false, ignore_patterns }
    }
}

/// The module a line names between its first single quote and the next.
pub open spec fn first_quoted(t: Seq<char>) -> Option<Seq<char>> {
    match find(t, seq!['\'']) {
        Some(a) => match find(t.subrange(a + 1, t.len() as int), seq!['\'']) {
            Some(e) => Some(t.subrange(a + 1, a + 1 + e)),
            None => None,
        },
        None => None,
    }
}

/// The modules a trimmed line of a script names: on an `import ... from`
/// line and on a line with `require(`, the first single-quoted text.
pub open spec fn js_line_deps(t: Seq<char>) -> Seq<Seq<char>> {
    (if starts_with(t, "import "@) && contains(t, " from "@) {
        opt_seq(first_quoted(t))
    } else {
        Seq::empty()
    }) + (if contains(t, "require("@) {
        opt_seq(first_quoted(t))
    } else {
        Seq::empty()
    })
}

/// The modules named on the first `k` lines.
pub open spec fn js_deps_upto(ls: Seq<Seq<char>>, k: int) -> Seq<Seq<char>>
    decreases k,
{
    if k <= 0 {
        Seq::empty()
    } else {
        js_deps_upto(ls, k - 1) + js_line_deps(trim(ls[k - 1]))
    }
}

/// The modules a script names.
pub open spec fn js_deps(content: Seq<char>) -> Seq<Seq<char>> {
    js_deps_upto(lines(content), lines(content).len() as int)
}

/// A source file by path, extension and content.
pub open spec fn source_view(s: (String, String, String)) -> (Seq<char>, Seq<char>, Seq<char>) {
    (s.0@, s.1@, s.2@)
}

/// The graph after adding the sources in turn: a component with no
/// dependencies recorded, a script with those it names; other files are
/// left out.
pub open spec fn graph_with_sources(
    g: Map<Seq<char>, Seq<Seq<char>>>,
    srcs: Seq<(Seq<char>, Seq<char>, Seq<char>)>,
) -> Map<Seq<char>, Seq<Seq<char>>>
    decreases srcs.len(),
{
    if srcs.len() == 0 {
        g
    } else {
        let before = graph_with_sources(g, srcs.drop_last());
        let (path, ext, content) = srcs.last();
        if ext == "vue"@ {
            before.insert(path, Seq::empty())
        } else if ext == "js"@ || ext == "ts"@ || ext == "jsx"@ || ext == "tsx"@ {
            before.insert(path, js_deps(content))
        } else {
            before
        }
    }
}

/// The first single-quoted text of a line.
fn first_quoted_exec(t: &Vec<char>) -> (r: Option<String>)
    ensures
        match r {
            Some(x) => first_quoted(t@) == Some(x@),
            None => first_quoted(t@) is None,
        },
{
    let quote: Vec<char> = vec!['\''];
    assert(quote@ =~= seq!['\'']);
    let tlen = t.len();
    match find_exec(t, &quote) {
        Some(a) => {
            proof {
                lemma_find_from(t@, quote@, 0);
            }
            let rest = sub_chars(t, a + 1, tlen);
            match find_exec(&rest, &quote) {
                Some(e) => {
                    proof {
                        lemma_find_from(rest@, quote@, 0);
                    }
                    Some(string_of(t, a + 1, a + 1 + e))
                },
                None => None,
            }
        },
        None => None,
    }
}

/// Whether `s` mentions `p`.
fn mentions(s: &Vec<char>, p: &str) -> (r: bool)
    ensures
        r == contains(s@, p@),
{
    let pv = chars_of(p);
    find_exec(s, &pv).is_some()
}

/// The engine that loads and runs a Vue project.
#[derive(Debug)]
pub struct JetCrabEngine {
    config: EngineConfig,
    project_info: Option<ProjectInfo>,
    module_graph: ModuleGraph,
    hmr_manager: Option<HMRManager>,
    initialized: bool,
}

impl JetCrabEngine {
    /// The configuration.
    pub closed spec fn cfg(&self) -> EngineConfig {
        self.config
    }

    /// Whether the engine was initialized.
    pub closed spec fn is_init(&self) -> bool {
        self.initialized
    }

    /// Whether hot replacement is running.
    pub closed spec fn hmr_running(&self) -> bool {
        self.hmr_manager is Some
    }

    /// The project loaded, if any.
    pub closed spec fn project(&self) -> Option<ProjectInfo> {
        self.project_info
    }

    /// The module graph.
    pub closed spec fn graph(&self) -> Map<Seq<char>, Seq<Seq<char>>> {
        self.module_graph.graph()
    }

    /// An engine with the default configuration.
    pub fn new() -> (e: Self)
        ensures
            !e.is_init(),
            !e.hmr_running(),
            e.project() is None,
            e.graph() == Map::<Seq<char>, Seq<Seq<char>>>::empty(),
            e.cfg().hmr_enabled,
            !e.cfg().debug,
            str_views(e.cfg().ignore_patterns@) == default_ignores(),
    {
        Self::with_config(EngineConfig::default())
    }

    /// An engine with the given configuration.
    pub fn with_config(config: EngineConfig) -> (e: Self)
        ensures
            e.cfg() == config,
            !e.is_init(),
            !e.hmr_running(),
            e.project() is None,
            e.graph() == Map::<Seq<char>, Seq<Seq<char>>>::empty(),
    {
        JetCrabEngine {
            config,
            project_info: None,
            module_graph: ModuleGraph::new(),
            hmr_manager: None,
            initialized: false,
        }
    }

    /// Initializes the engine once: starts hot replacement when it is
    /// enabled. A second call changes nothing.
    pub fn initialize(&mut self) -> (r: Result<(), String>)
        ensures
            r is Ok,
            final(self).is_init(),
            old(self).is_init() ==> *final(self) == *old(self),
            !old(self).is_init() ==> final(self).hmr_running() == (old(self).cfg().hmr_enabled || old(self).hmr_running())
                && final(self).cfg() == old(self).cfg() && final(self).project() == old(self).project()
                && final(self).graph() == old(self).graph(),
    {
        if self.initialized {
            return Ok(());
        }
        crate::jetcrab::init();
        if self.config.hmr_enabled {
            self.hmr_manager = Some(HMRManager::new());
        }
        self.initialized = true;
        Ok(())
    }

    /// Loads a project that was scanned, with its source files (path,
    /// extension, content): each component and script goes into the module
    /// graph. Fails when the engine is not initialized.
    pub fn load_project(&mut self, info: ProjectInfo, sources: Vec<(String, String, String)>) -> (r: Result<(), String>)
        ensures
            !old(self).is_init() ==> (r matches Err(e) && e@ == "Engine not initialized"@ && *final(self) == *old(self)),
            old(self).is_init() ==> r is Ok && final(self).project() == Some(info) && final(self).graph()
                == graph_with_sources(old(self).graph(), sources@.map_values(|s: (String, String, String)| source_view(s)))
                && final(self).cfg() == old(self).cfg() && final(self).is_init()
                && final(self).hmr_running() == old(self).hmr_running(),
    {
        if !self.initialized {
            return Err(owned("Engine not initialized"));
        }
        self.project_info = Some(info);
        let ghost g0 = self.graph();
        let ghost sv = sources@.map_values(|s: (String, String, String)| source_view(s));
        let mut i: usize = 0;
        while i < sources.len()
            invariant
                i <= sources@.len(),
                sv == sources@.map_values(|s: (String, String, String)| source_view(s)),
                self.graph() == graph_with_sources(g0, sv.take(i as int)),
                self.project_info == Some(info),
                self.config == old(self).config,
                self.initialized,
                self.hmr_manager is Some == old(self).hmr_manager is Some,
            decreases sources@.len() - i,
        {
            let (path, ext, content) = (&sources[i].0, &sources[i].1, &sources[i].2);
            proof {
                assert(sv.take(i + 1).drop_last() =~= sv.take(i as int));
                assert(sv.take(i + 1).last() == (path@, ext@, content@));
            }
            let e = ext.as_str();
            if str_eq(e, "vue") {
                let empty: Vec<String> = Vec::new();
                assert(str_views(empty@) =~= Seq::<Seq<char>>::empty());
                self.module_graph.add_module(path.clone(), empty);
            } else if str_eq(e, "js") || str_eq(e, "ts") || str_eq(e, "jsx") || str_eq(e, "tsx") {
                let deps = self.parse_js_dependencies(content.as_str());
                self.module_graph.add_module(path.clone(), deps);
            }
            i = i + 1;
        }
        assert(sv.take(sources@.len() as int) =~= sv);
        Ok(())
    }

    /// Whether a file with this extension is a source file that goes into
    /// the module graph: a component or a script.
    pub fn is_source_extension(ext: &str) -> (r: bool)
        ensures
            r == (ext@ == "vue"@ || ext@ == "js"@ || ext@ == "ts"@ || ext@ == "jsx"@ || ext@ == "tsx"@),
    {
        str_eq(ext, "vue") || str_eq(ext, "js") || str_eq(ext, "ts") || str_eq(ext, "jsx") || str_eq(ext, "tsx")
    }

    /// Whether a file or directory name is skipped: it holds one of the
    /// configured patterns.
    pub fn should_ignore(&self, name: &str) -> (r: bool)
        ensures
            r == exists|i: int|
                0 <= i < self.cfg().ignore_patterns@.len() && contains(name@, #[trigger] self.cfg().ignore_patterns@[i]@),
    {
        let nv = chars_of(name);
        let mut i: usize = 0;
        while i < self.config.ignore_patterns.len()
            invariant
                i <= self.config.ignore_patterns@.len(),
                nv@ == name@,
                forall|j: int| 0 <= j < i ==> !contains(name@, #[trigger] self.config.ignore_patterns@[j]@),
            decreases self.config.ignore_patterns@.len() - i,
        {
            if mentions(&nv, self.config.ignore_patterns[i].as_str()) {
                assert(contains(name@, self.cfg().ignore_patterns@[i as int]@));
                return true;
            }
            i = i + 1;
        }
        false
    }

    /// The modules a script names: on `import ... from` lines and lines
    /// with `require(`, the first single-quoted text.
    pub fn parse_js_dependencies(&self, content: &str) -> (r: Vec<String>)
        ensures
            str_views(r@) == js_deps(content@),
    {
        let cs = chars_of(content);
        let ranges = line_ranges(&cs);
        let imp = chars_of("import ");
        let mut deps: Vec<String> = Vec::new();
        let mut i: usize = 0;
        while i < ranges.len()
            invariant
                i <= ranges@.len(),
                cs@ == content@,
                imp@ == "import "@,
                pieces(cs@, ranges@) == lines(content@),
                valid_ranges(cs@, ranges@),
                str_views(deps@) == js_deps_upto(lines(content@), i as int),
            decreases ranges@.len() - i,
        {
            let (a, b) = ranges[i];
            let (x, y) = trim_bounds(&cs, a, b);
            proof {
                assert(pieces(cs@, ranges@)[i as int] == cs@.subrange(a as int, b as int));
            }
            let t = sub_chars(&cs, x, y);
            let ghost before = str_views(deps@);
            if starts_with_exec(&t, &imp) && mentions(&t, " from ") {
                match first_quoted_exec(&t) {
                    Some(d) => {
                        deps.push(d);
                    },
                    None => {},
                }
            }
            let ghost mid = str_views(deps@);
            assert(mid =~= before + (if starts_with(t@, "import "@) && contains(t@, " from "@) {
                opt_seq(first_quoted(t@))
            } else {
                Seq::empty()
            }));
            if mentions(&t, "require(") {
                match first_quoted_exec(&t) {
                    Some(d) => {
                        deps.push(d);
                    },
                    None => {},
                }
            }
            assert(str_views(deps@) =~= js_deps_upto(lines(content@), i + 1));
            i = i + 1;
        }
        deps
    }

    /// The entry script to run: fails when the engine is not initialized or
    /// no project is loaded.
    pub fn prepare_run(&self) -> (r: Result<PathBuf, String>)
        ensures
            !self.is_init() ==> (r matches Err(e) && e@ == "Engine not initialized"@),
            self.is_init() && self.project() is None ==> (r matches Err(e) && e@ == "No project loaded"@),
            self.is_init() && self.project() is Some ==> r == Ok::<PathBuf, String>(self.project()->0.entry_file),
    {
        if !self.initialized {
            return Err(owned("Engine not initialized"));
        }
        match &self.project_info {
            None => Err(owned("No project loaded")),
            Some(info) => Ok(copy_path(&info.entry_file)),
        }
    }

    /// Sets the project root.
    pub fn set_project_root(&mut self, path: PathBuf)
        ensures
            final(self).cfg().project_root == path,
            final(self).cfg().hmr_enabled == old(self).cfg().hmr_enabled,
            final(self).cfg().debug == old(self).cfg().debug,
            final(self).cfg().ignore_patterns == old(self).cfg().ignore_patterns,
            final(self).is_init() == old(self).is_init(),
            final(self).project() == old(self).project(),
            final(self).graph() == old(self).graph(),
    {
        self.config.project_root = path;
    }

    /// Turns hot replacement on or off for the next initialization.
    pub fn enable_hmr(&mut self, enabled: bool)
        ensures
            final(self).cfg().hmr_enabled == enabled,
            final(self).cfg().project_root == old(self).cfg().project_root,
            final(self).cfg().debug == old(self).cfg().debug,
            final(self).cfg().ignore_patterns == old(self).cfg().ignore_patterns,
            final(self).is_init() == old(self).is_init(),
            final(self).project() == old(self).project(),
            final(self).graph() == old(self).graph(),
    {
        self.config.hmr_enabled = enabled;
    }

    /// The project loaded, if any.
    pub fn project_info(&self) -> (r: Option<&ProjectInfo>)
        ensures
            match r {
                Some(p) => self.project() == Some(*p),
                None => self.project() is None,
            },
    {
        match &self.project_info {
            Some(p) => Some(p),
            None => None,
        }
    }

    /// The module graph.
    pub fn module_graph(&self) -> (r: &ModuleGraph)
        ensures
            r.graph() == self.graph(),
    {
        &self.module_graph
    }
}

impl Default for JetCrabEngine {
    fn default() -> (e: Self)
        ensures
            !e.is_init(),
            e.project() is None,
            e.graph() == Map::<Seq<char>, Seq<Seq<char>>>::empty(),
    {
        Self::new()
    }
}

} // verus!
