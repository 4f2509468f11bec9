//! The package manager: installed packages by name and version.
use vstd::prelude::*;
use vstd::string::StringExecFns;
use std::path::{Path, PathBuf};
use crate::strmap::StrMap;
use crate::text::owned;
use crate::jetcrab::module::{to_path_buf, copy_path};

verus! {

/// Name for what `Path::join` gives of a path and a component: the
/// component appended as a new last part (or taking the path's place when it
/// is absolute); a function of the two alone.
pub uninterp spec fn joined(base: PathBuf, component: Seq<char>) -> PathBuf;

/// Calls `Path::join`; claimed, the result is `joined` of the path and the
/// component.
#[verifier::external_body]
pub(crate) fn join_path(p: &PathBuf, component: &str) -> (r: PathBuf)
    ensures
        r == joined(*p, component@),
{
    p.join(component)
}

/// An installed package.
#[derive(Debug)]
pub struct PackageInfo {
    /// Package name.
    pub name: String,
    /// Version.
    pub version: String,
    /// Directory it is installed in.
    pub path: PathBuf,
    /// Its dependencies: name to version range.
    pub dependencies: StrMap<String>,
    /// Whether it is installed.
    pub installed: bool,
}

/// `b` holds the name, version, dependencies and state of `a`.
pub open spec fn package_copied(a: PackageInfo, b: PackageInfo) -> bool {
    &&& a.name@ == b.name@
    &&& a.version@ == b.version@
    &&& a.dependencies.sview() == b.dependencies.sview()
    &&& a.installed == b.installed
}

impl PackageInfo {
    /// A copy.
    pub fn copy(&self) -> (p: Self)
        ensures
            package_copied(*self, p),
    {
        let deps = self.dependencies.copy();
        assert(deps.sview() =~= self.dependencies.sview());
        PackageInfo {
            name: self.name.clone(),
            version: self.version.clone(),
            path: copy_path(&self.path),
            dependencies: deps,
            installed: self.installed,
        }
    }
}

/// The fields of a `package.json`.
#[derive(Debug)]
pub struct PackageJson {
    /// Package name.
    pub name: String,
    /// Version.
    pub version: String,
    /// Dependencies.
    pub dependencies: StrMap<String>,
    /// Development dependencies.
    pub dev_dependencies: StrMap<String>,
}

/// The cache key of a package: `name@version`.
pub open spec fn package_key(name: Seq<char>, version: Seq<char>) -> Seq<char> {
    name + "@"@ + version
}

/// The cache key of a package.
fn package_key_exec(name: &str, version: &str) -> (k: String)
    ensures
        k@ == package_key(name@, version@),
{
    owned(name).concat("@").concat(version)
}

/// The package manager of a project.
#[derive(Debug)]
pub struct CPMManager {
    project_root: PathBuf,
    cache_dir: PathBuf,
    installed_packages: StrMap<PackageInfo>,
    /// URL of the package registry.
    pub registry_url: String,
}

impl CPMManager {
    /// The installed packages by `name@version`.
    pub closed spec fn installed(&self) -> Map<Seq<char>, PackageInfo> {
        self.installed_packages@
    }

    /// The installed packages in installation order.
    pub closed spec fn install_order(&self) -> Seq<Seq<char>> {
        self.installed_packages.key_seq()
    }

    /// The registry URL.
    pub closed spec fn registry(&self) -> Seq<char> {
        self.registry_url@
    }

    /// A manager for the project at `project_root`, with its cache in
    /// `.jetcrab-cache` and the npm registry.
    pub fn new(project_root: &Path) -> (m: Self)
        ensures
            m.installed() == Map::<Seq<char>, PackageInfo>::empty(),
            m.registry() == "https://registry.npmjs.org"@,
            m.cache_path() == joined(m.root_path(), ".jetcrab-cache"@),
    {
        let root = to_path_buf(project_root);
        let cache_dir = join_path(&root, ".jetcrab-cache");
        CPMManager {
            project_root: root,
            cache_dir,
            installed_packages: StrMap::new(),
            registry_url: owned("https://registry.npmjs.org"),
        }
    }

    /// The project root.
    pub closed spec fn root_path(&self) -> PathBuf {
        self.project_root
    }

    /// The cache directory.
    pub closed spec fn cache_path(&self) -> PathBuf {
        self.cache_dir
    }

    /// The project root.
    pub fn project_root(&self) -> (r: &PathBuf)
        ensures
            *r == self.root_path(),
    {
        &self.project_root
    }

    /// The cache directory.
    pub fn cache_dir(&self) -> (r: &PathBuf)
        ensures
            *r == self.cache_path(),
    {
        &self.cache_dir
    }

    /// Sets the registry URL.
    pub fn set_registry(&mut self, url: &str)
        ensures
            final(self).registry() == url@,
            final(self).installed() == old(self).installed(),
    {
        self.registry_url = owned(url);
    }

    /// A copy of the installed package `package_name@version`.
    pub fn get_installed_package(&self, package_name: &str, version: &str) -> (r: Option<PackageInfo>)
        ensures
            ({
                let k = package_key(package_name@, version@);
                match r {
                    Some(p) => self.installed().contains_key(k) && package_copied(self.installed()[k], p),
                    None => !self.installed().contains_key(k),
                }
            }),
    {
        let key = package_key_exec(package_name, version);
        match self.installed_packages.get(key.as_str()) {
            Some(p) => Some(p.copy()),
            None => None,
        }
    }

    /// Records a package installed in `package_path`: the fields of its
    /// `package.json` when it has one, else the requested name and version
    /// without dependencies.
    pub fn record_installed(
        &mut self,
        package_name: &str,
        version: &str,
        package_path: PathBuf,
        json: Option<PackageJson>,
    ) -> (r: PackageInfo)
        ensures
            r.installed,
            match json {
                Some(j) => r.name@ == j.name@ && r.version@ == j.version@ && r.dependencies.sview()
                    == j.dependencies.sview(),
                None => r.name@ == package_name@ && r.version@ == version@ && r.dependencies.sview()
                    == Map::<Seq<char>, Seq<char>>::empty(),
            },
            final(self).installed().contains_key(package_key(package_name@, version@)),
            package_copied(r, final(self).installed()[package_key(package_name@, version@)]),
            final(self).installed().remove(package_key(package_name@, version@)) == old(
                self,
            ).installed().remove(package_key(package_name@, version@)),
            final(self).registry() == old(self).registry(),
    {
        let key = package_key_exec(package_name, version);
        let info = match json {
            Some(j) => PackageInfo {
                name: j.name,
                version: j.version,
                path: package_path,
                dependencies: j.dependencies,
                installed: true,
            },
            None => {
                let deps = StrMap::new();
                assert(deps.sview() =~= Map::<Seq<char>, Seq<char>>::empty());
                PackageInfo {
                    name: owned(package_name),
                    version: owned(version),
                    path: package_path,
                    dependencies: deps,
                    installed: true,
                }
            },
        };
        let c = info.copy();
        self.installed_packages.insert(key.as_str(), c);
        assert(self.installed().remove(package_key(package_name@, version@)) =~= old(self).installed().remove(
            package_key(package_name@, version@),
        ));
        info
    }

    /// Copies of the installed packages, in installation order.
    pub fn list_installed(&self) -> (r: Vec<PackageInfo>)
        ensures
            r@.len() == self.install_order().len(),
            forall|i: int| 0 <= i < r@.len() ==> package_copied(self.installed()[self.install_order()[i]], #[trigger] r@[i]),
    {
        proof {
            use_type_invariant(&self.installed_packages);
            self.installed_packages.lemma_keys();
        }
        let n = self.installed_packages.len();
        let mut out: Vec<PackageInfo> = Vec::new();
        let mut i: usize = 0;
        while i < n
            invariant
                i <= n,
                n == self.installed_packages.key_seq().len(),
                n == self.installed_packages.entry_seq().len(),
                out@.len() == i,
                forall|j: int| 0 <= j < i ==> package_copied(self.installed()[self.install_order()[j]], #[trigger] out@[j]),
            decreases n - i,
        {
            out.push(self.installed_packages.value_at(i).copy());
            i = i + 1;
        }
        out
    }

    /// Forgets the installed package `package_name@version`.
    pub fn uninstall_package(&mut self, package_name: &str, version: &str) -> (r: Result<(), String>)
        ensures
            ({
                let k = package_key(package_name@, version@);
                &&& old(self).installed().contains_key(k) ==> r is Ok && final(self).installed()
                    == old(self).installed().remove(k)
                &&& !old(self).installed().contains_key(k) ==> (r matches Err(e) && e@ == "Package not found: "@ + k
                    && final(self).installed() == old(self).installed())
                &&& final(self).registry() == old(self).registry()
            }),
    {
        let key = package_key_exec(package_name, version);
        match self.installed_packages.remove(key.as_str()) {
            Some(_) => Ok(()),
            None => {
                assert(self.installed() =~= old(self).installed());
                Err(owned("Package not found: ").concat(key.as_str()))
            },
        }
    }

    /// Forgets every installed package.
    pub fn forget_installed(&mut self)
        ensures
            final(self).installed() == Map::<Seq<char>, PackageInfo>::empty(),
            final(self).registry() == old(self).registry(),
    {
        self.installed_packages.clear();
    }

    /// Number of installed packages.
    pub fn cache_size(&self) -> (n: usize)
        ensures
            n == self.installed().dom().len(),
    {
        self.installed_packages.len()
    }
}

} // verus!
