//! Fetching packages from the npm registry: which packages are the
//! framework's own, where a package's metadata is, and the version and
//! tarball a request resolves to.
use vstd::prelude::*;
use vstd::string::StringExecFns;
use std::path::PathBuf;
use crate::text::{chars_of, owned, starts_with, starts_with_exec, str_eq, string_of};
use crate::jetcrab::cpm::{join_path, joined};
use crate::jetcrab::esm::opt_str;
use crate::jetcrab::web_apis::json_error;
use crate::engine::manifest::{json_str_at, json_str_at2, json_str_at4};

verus! {

/// The npm registry.
pub open spec fn npm_registry() -> Seq<char> {
    "https://registry.npmjs.org"@
}

/// The framework's own packages, which are never downloaded.
pub open spec fn internal_packages() -> Seq<Seq<char>> {
    seq![
        "iris"@, "iris-runtime"@, "iris-core"@, "iris-gpu"@, "iris-layout"@, "iris-dom"@, "iris-sfc"@,
        "iris-cssom"@, "iris-jetcrab"@, "iris-jetcrab-engine"@, "iris-jetcrab-cli"@,
    ]
}

/// Whether a package is the framework's own: one of its packages, or one of
/// them under the `@irisverse` scope.
pub open spec fn is_internal(name: Seq<char>) -> bool {
    internal_packages().contains(name) || (starts_with(name, "@irisverse/"@) && internal_packages().contains(
        name.subrange(11, name.len() as int),
    ))
}

/// A version of a package and where its tarball is.
#[derive(Debug, Clone)]
pub struct PackageVersion {
    /// The version.
    pub version: String,
    /// The tarball's address.
    pub tarball_url: String,
}

/// Where the metadata of a package (and version) is: the whole package
/// for `latest`, else the version's own document.
pub open spec fn metadata_url(package_name: Seq<char>, version: Seq<char>) -> Seq<char> {
    if version == "latest"@ {
        npm_registry() + "/"@ + package_name
    } else {
        npm_registry() + "/"@ + package_name + "/"@ + version
    }
}

/// The version asked for, `latest` when none is.
pub open spec fn requested(version: Option<Seq<char>>) -> Seq<char> {
    match version {
        Some(v) => v,
        None => "latest"@,
    }
}

/// What a request resolves to, given the `latest` tag and the tarball
/// found: the version and the tarball's address, or the error.
pub open spec fn version_outcome(
    package_name: Seq<char>,
    v: Seq<char>,
    latest: Option<Seq<char>>,
    tarball: Option<Seq<char>>,
) -> Result<(Seq<char>, Seq<char>), Seq<char>> {
    if v == "latest"@ {
        match latest {
            None => Err("No 'latest' version found for "@ + package_name),
            Some(t) => match tarball {
                None => Err("No tarball URL found for "@ + package_name + "@"@ + t),
                Some(u) => Ok((t, u)),
            },
        }
    } else {
        match tarball {
            None => Err("No tarball URL found for "@ + package_name + "@"@ + v),
            Some(u) => Ok((v, u)),
        }
    }
}

/// The tarball a registry answer names for the request `v`: for `latest`,
/// that of the version its `latest` tag names, else its own.
pub open spec fn registry_tarball(body: Seq<char>, v: Seq<char>) -> Option<Seq<char>> {
    if v == "latest"@ {
        match json_str_at(body, seq!["dist-tags"@, "latest"@]) {
            Some(t) => json_str_at(body, seq!["versions"@, t, "dist"@, "tarball"@]),
            None => None,
        }
    } else {
        json_str_at(body, seq!["dist"@, "tarball"@])
    }
}

/// A resolved version by its plain values.
pub open spec fn version_view(r: Result<PackageVersion, String>) -> Result<(Seq<char>, Seq<char>), Seq<char>> {
    match r {
        Ok(p) => Ok((p.version@, p.tarball_url@)),
        Err(e) => Err(e@),
    }
}

/// Downloads packages into a `node_modules` directory.
#[derive(Debug)]
pub struct NpmDownloader {
    node_modules_path: PathBuf,
}

/// The framework's packages as strings.
fn internal_list() -> (r: Vec<&'static str>)
    ensures
        r@.map_values(|s: &str| s@) == internal_packages(),
{
    let r = vec![
        "iris", "iris-runtime", "iris-core", "iris-gpu", "iris-layout", "iris-dom", "iris-sfc", "iris-cssom",
        "iris-jetcrab", "iris-jetcrab-engine", "iris-jetcrab-cli",
    ];
    assert(r@.map_values(|s: &str| s@) =~= internal_packages());
    r
}

/// Whether `name` is one of the framework's packages.
fn in_internal_list(name: &str) -> (r: bool)
    ensures
        r == internal_packages().contains(name@),
{
    let list = internal_list();
    let mut i: usize = 0;
    while i < list.len()
        invariant
            i <= list@.len(),
            list@.map_values(|s: &str| s@) == internal_packages(),
            forall|j: int| 0 <= j < i ==> internal_packages()[j] != name@,
        decreases list@.len() - i,
    {
        assert(list@[i as int]@ == internal_packages()[i as int]);
        if str_eq(list[i], name) {
            return true;
        }
        i = i + 1;
    }
    false
}

impl NpmDownloader {
    /// A downloader into `node_modules_path`.
    pub fn new(node_modules_path: PathBuf) -> (d: Self)
        ensures
            d.dir() == node_modules_path,
    {
        NpmDownloader { node_modules_path }
    }

    /// The `node_modules` directory.
    pub closed spec fn dir(&self) -> PathBuf {
        self.node_modules_path
    }

    /// The `node_modules` directory.
    pub fn node_modules_path(&self) -> (r: &PathBuf)
        ensures
            *r == self.dir(),
    {
        &self.node_modules_path
    }

    /// Whether a package is the framework's own and is never downloaded.
    pub fn is_internal_package(package_name: &str) -> (r: bool)
        ensures
            r == is_internal(package_name@),
    {
        if in_internal_list(package_name) {
            return true;
        }
        let v = chars_of(package_name);
        let scope = chars_of("@irisverse/");
        proof {
            reveal_strlit("@irisverse/");
        }
        if starts_with_exec(&v, &scope) {
            let rest = string_of(&v, 11, v.len());
            in_internal_list(rest.as_str())
        } else {
            false
        }
    }

    /// Where a package is installed: its name joined to `node_modules`.
    pub fn get_package_path(&self, package_name: &str) -> (r: PathBuf)
        ensures
            r == joined(self.dir(), package_name@),
    {
        join_path(&self.node_modules_path, package_name)
    }

    /// Refuses the framework's own packages, which are not downloaded.
    pub fn check_downloadable(package_name: &str) -> (r: Result<(), String>)
        ensures
            is_internal(package_name@) <==> r is Err,
            r matches Err(e) ==> e@ == "Package '"@ + package_name@ + "' is an internal Iris package, skipping download"@,
    {
        if Self::is_internal_package(package_name) {
            Err(owned("Package '").concat(package_name).concat("' is an internal Iris package, skipping download"))
        } else {
            Ok(())
        }
    }

    /// Where the metadata of the version asked for is.
    pub fn metadata_url(package_name: &str, version: Option<&str>) -> (r: String)
        ensures
            r@ == metadata_url(package_name@, requested(match version {
                Some(v) => Some(v@),
                None => None,
            })),
    {
        let v = match version {
            Some(v) => v,
            None => "latest",
        };
        let base = owned("https://registry.npmjs.org").concat("/").concat(package_name);
        if str_eq(v, "latest") {
            base
        } else {
            base.concat("/").concat(v)
        }
    }

    /// The version a request resolves to, from what the registry answered:
    /// for `latest`, the version its `latest` tag names and that version's
    /// tarball; else the version asked for and its tarball. Fails when the
    /// tag or the tarball is missing.
    pub fn resolve_version(
        package_name: &str,
        version: Option<&str>,
        latest_tag: Option<String>,
        tarball: Option<String>,
    ) -> (r: Result<PackageVersion, String>)
        ensures
            ({
                let v = requested(match version {
                    Some(v) => Some(v@),
                    None => None,
                });
                if v == "latest"@ {
                    match latest_tag {
                        None => r matches Err(e) && e@ == "No 'latest' version found for "@ + package_name@,
                        Some(t) => match tarball {
                            None => r matches Err(e) && e@ == "No tarball URL found for "@ + package_name@ + "@"@ + t@,
                            Some(u) => r matches Ok(p) && p.version@ == t@ && p.tarball_url@ == u@,
                        },
                    }
                } else {
                    match tarball {
                        None => r matches Err(e) && e@ == "No tarball URL found for "@ + package_name@ + "@"@ + v,
                        Some(u) => r matches Ok(p) && p.version@ == v && p.tarball_url@ == u@,
                    }
                }
            }),
    {
        let v = match version {
            Some(v) => v,
            None => "latest",
        };
        if str_eq(v, "latest") {
            match latest_tag {
                None => Err(owned("No 'latest' version found for ").concat(package_name)),
                Some(t) => match tarball {
                    None => Err(owned("No tarball URL found for ").concat(package_name).concat("@").concat(t.as_str())),
                    Some(u) => Ok(PackageVersion { version: t, tarball_url: u }),
                },
            }
        } else {
            match tarball {
                None => Err(owned("No tarball URL found for ").concat(package_name).concat("@").concat(v)),
                Some(u) => Ok(PackageVersion { version: owned(v), tarball_url: u }),
            }
        }
    }
    /// The version a request resolves to, from the registry's JSON answer:
    /// its `latest` tag and the tarball of the version asked for; an error
    /// where the answer is not JSON.
    pub fn registry_version(package_name: &str, version: Option<&str>, body: &str) -> (r: Result<PackageVersion, String>)
        ensures
            ({
                let v = requested(match version {
                    Some(v) => Some(v@),
                    None => None,
                });
                match json_error(body@) {
                    Some(_) => r matches Err(e) && e@ == "Failed to parse package info JSON"@,
                    None => version_view(r) == version_outcome(
                        package_name@,
                        v,
                        if v == "latest"@ { json_str_at(body@, seq!["dist-tags"@, "latest"@]) } else { None },
                        registry_tarball(body@, v),
                    ),
                }
            }),
    {
        let v = match version {
            Some(v) => v,
            None => "latest",
        };
        proof {
            reveal_strlit("latest");
        }
        if str_eq(v, "latest") {
            let latest = match json_str_at2(body, "dist-tags", "latest") {
                Ok(l) => l,
                Err(_) => return Err(owned("Failed to parse package info JSON")),
            };
            let tarball = match &latest {
                Some(t) => match json_str_at4(body, "versions", t.as_str(), "dist", "tarball") {
                    Ok(u) => u,
                    Err(_) => return Err(owned("Failed to parse package info JSON")),
                },
                None => None,
            };
            let r = Self::resolve_version(package_name, version, latest, tarball);
            r
        } else {
            let tarball = match json_str_at2(body, "dist", "tarball") {
                Ok(u) => u,
                Err(_) => return Err(owned("Failed to parse package info JSON")),
            };
            Self::resolve_version(package_name, version, None, tarball)
        }
    }
}

} // verus!
