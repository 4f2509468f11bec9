//! What a Vue project looks like on disk: its entry page, sources, entry
//! script, manifest, build tool and Vue version.
use vstd::prelude::*;
use vstd::string::StringExecFns;
use std::path::PathBuf;
use crate::text::{chars_of, contains, find_exec, str_eq};
use crate::strmap::StrMap;
use crate::layout::vdom::opt_view;

verus! {

/// What was found of a project.
#[derive(Debug)]
pub struct ProjectInfo {
    /// Project root.
    pub root_dir: PathBuf,
    /// The `index.html` page.
    pub index_html_path: PathBuf,
    /// The `src` directory.
    pub src_dir: PathBuf,
    /// The entry script.
    pub entry_file: PathBuf,
    /// The `package.json` manifest, if there is one.
    pub package_json_path: Option<PathBuf>,
    /// The build tool, if the manifest tells.
    pub build_tool: Option<BuildTool>,
    /// The Vue version asked for, if the manifest tells.
    pub vue_version: Option<String>,
}

/// The build tool of a project.
#[derive(Debug, Clone, Copy, PartialEq, Eq, Structural)]
pub enum BuildTool {
    /// Vite.
    Vite,
    /// Vue CLI (webpack).
    VueCli,
    /// Neither.
    Unknown,
}

/// The build tool told by the first dependency (runtime ones first, then
/// development ones) whose version mentions `vite` (Vite) or whose name
/// mentions `vue-loader` or `@vue/cli` (Vue CLI), from position `i` on.
pub open spec fn build_tool_from(deps: Seq<(Seq<char>, Seq<char>)>, i: int) -> BuildTool
    decreases deps.len() - i,
{
    if i < 0 || i >= deps.len() {
        BuildTool::Unknown
    } else if contains(deps[i].1, "vite"@) {
        BuildTool::Vite
    } else if contains(deps[i].0, "vue-loader"@) || contains(deps[i].0, "@vue/cli"@) {
        BuildTool::VueCli
    } else {
        build_tool_from(deps, i + 1)
    }
}

/// The entries by their characters.
pub open spec fn dep_pairs(v: Seq<(String, String)>) -> Seq<(Seq<char>, Seq<char>)> {
    v.map_values(|p: (String, String)| (p.0@, p.1@))
}

/// The names tried for the entry script, in order.
pub open spec fn entry_names() -> Seq<Seq<char>> {
    seq!["main.js"@, "main.ts"@, "main.jsx"@, "main.tsx"@, "index.js"@, "index.ts"@]
}

/// Scans a project directory.
#[derive(Debug)]
pub struct ProjectScanner {
    root_dir: PathBuf,
}

/// Whether `s` mentions `p`.
fn mentions(s: &str, p: &str) -> (r: bool)
    ensures
        r == contains(s@, p@),
{
    let sv = chars_of(s);
    let pv = chars_of(p);
    find_exec(&sv, &pv).is_some()
}

impl ProjectScanner {
    /// A scanner of the project at `root_dir`.
    pub fn new(root_dir: PathBuf) -> (s: Self)
        ensures
            s.root() == root_dir,
    {
        ProjectScanner { root_dir }
    }

    /// The project root.
    pub closed spec fn root(&self) -> PathBuf {
        self.root_dir
    }

    /// The project root.
    pub fn root_dir(&self) -> (r: &PathBuf)
        ensures
            *r == self.root(),
    {
        &self.root_dir
    }

    /// The build tool of a project by its dependencies (name and version,
    /// a version that is not a string taken as empty): runtime ones are
    /// looked at first, then development ones.
    pub fn detect_build_tool(deps: &Vec<(String, String)>, dev_deps: &Vec<(String, String)>) -> (r: BuildTool)
        ensures
            r == build_tool_from(dep_pairs(deps@) + dep_pairs(dev_deps@), 0),
    {
        let ghost all = dep_pairs(deps@) + dep_pairs(dev_deps@);
        let mut i: usize = 0;
        while i < deps.len()
            invariant
                i <= deps@.len(),
                all == dep_pairs(deps@) + dep_pairs(dev_deps@),
                build_tool_from(all, 0) == build_tool_from(all, i as int),
            decreases deps@.len() - i,
        {
            assert(all[i as int] == (deps@[i as int].0@, deps@[i as int].1@));
            if mentions(deps[i].1.as_str(), "vite") {
                return BuildTool::Vite;
            }
            if mentions(deps[i].0.as_str(), "vue-loader") || mentions(deps[i].0.as_str(), "@vue/cli") {
                return BuildTool::VueCli;
            }
            i = i + 1;
        }
        let n = deps.len();
        let mut j: usize = 0;
        while j < dev_deps.len()
            invariant
                j <= dev_deps@.len(),
                n == deps@.len(),
                all == dep_pairs(deps@) + dep_pairs(dev_deps@),
                build_tool_from(all, 0) == build_tool_from(all, n + j),
            decreases dev_deps@.len() - j,
        {
            assert(all[n + j] == (dev_deps@[j as int].0@, dev_deps@[j as int].1@));
            if mentions(dev_deps[j].1.as_str(), "vite") {
                return BuildTool::Vite;
            }
            if mentions(dev_deps[j].0.as_str(), "vue-loader") || mentions(dev_deps[j].0.as_str(), "@vue/cli") {
                return BuildTool::VueCli;
            }
            j = j + 1;
        }
        BuildTool::Unknown
    }

    /// The names tried for the entry script under `src`, in order.
    pub fn entry_file_names() -> (r: Vec<&'static str>)
        ensures
            r@.map_values(|s: &str| s@) == entry_names(),
    {
        let r = vec!["main.js", "main.ts", "main.jsx", "main.tsx", "index.js", "index.ts"];
        assert(r@.map_values(|s: &str| s@) =~= entry_names());
        r
    }

    /// Whether a file with this extension can serve as the entry script.
    pub fn is_script_extension(ext: &str) -> (r: bool)
        ensures
            r == (ext@ == "js"@ || ext@ == "ts"@ || ext@ == "jsx"@ || ext@ == "tsx"@),
    {
        str_eq(ext, "js") || str_eq(ext, "ts") || str_eq(ext, "jsx") || str_eq(ext, "tsx")
    }
    /// The Vue version a manifest asks for: the `vue` entry of its runtime
    /// dependencies where that is a string, else that of its development
    /// dependencies where that is one.
    pub fn detect_vue_version(deps: &StrMap<Option<String>>, dev_deps: &StrMap<Option<String>>) -> (r: Option<String>)
        ensures
            opt_view(r) == (if deps@.dom().contains("vue"@) && deps@["vue"@] is Some {
                opt_view(deps@["vue"@])
            } else if dev_deps@.dom().contains("vue"@) {
                opt_view(dev_deps@["vue"@])
            } else {
                None
            }),
    {
        match deps.get("vue") {
            Some(Some(v)) => return Some(String::from_str(v.as_str())),
            _ => {},
        }
        match dev_deps.get("vue") {
            Some(Some(v)) => Some(String::from_str(v.as_str())),
            _ => None,
        }
    }
}

} // verus!
