use std::path::{Path, PathBuf};

use iris::engine::dependency_tree::{DependencyTree, InstalledPackage};
use iris::engine::manifest::{declared_dependencies, installed_manifest, manifest_entries, manifest_string, npm_manifest};
use iris::engine::npm_resolve::{ManifestRead, NpmAction, NpmEvent, NpmResolver};
use iris::engine::npm_downloader::NpmDownloader;
use iris::engine::vue_compiler::VueProjectCompiler;
use iris::strmap::StrMap;

#[test]
fn npm_manifest_reads_fields_and_defaults() {
    let text = r#"{"name":"vue","version":"3.4.0","main":"index.js","module":"dist/vue.mjs","typings":"t.d.ts"}"#;
    let (info, entry) = npm_manifest("vue", text).unwrap();
    assert_eq!(info.name, "vue");
    assert_eq!(info.version, "3.4.0");
    assert_eq!(info.module.as_deref(), Some("dist/vue.mjs"));
    assert_eq!(info.types.as_deref(), Some("t.d.ts"));
    assert_eq!(entry, "dist/vue.mjs");
    let (info, entry) = npm_manifest("pkg", r#"{"types": 3, "typings": "x.d.ts"}"#).unwrap();
    assert_eq!(info.name, "pkg");
    assert_eq!(info.version, "unknown");
    assert_eq!(info.main, "index.js");
    assert_eq!(info.types, None);
    assert_eq!(entry, "index.js");
    assert!(npm_manifest("pkg", "{not json").is_err());
}

#[test]
fn declared_dependencies_runtime_first() {
    let text = r#"{"devDependencies":{"vite":"^5","vue":"^3.4"},"dependencies":{"vue":"^3.3","axios":1}}"#;
    let d = declared_dependencies(text).unwrap();
    let runtime: Vec<_> = d.iter().filter(|x| !x.2).collect();
    let dev: Vec<_> = d.iter().filter(|x| x.2).collect();
    assert_eq!(runtime.len(), 2);
    assert_eq!(dev.len(), 2);
    assert!(d.iter().position(|x| x.2).unwrap() == 2);
    assert!(runtime.iter().any(|x| x.0 == "axios" && x.1.is_empty()));
    assert_eq!(declared_dependencies("[").unwrap_err(), "Failed to parse package.json");
}

#[test]
fn tree_from_package_json_text() {
    let root = Path::new("/proj");
    assert_eq!(DependencyTree::from_package_json(root, None, &StrMap::new()).unwrap_err(), "package.json not found");
    assert_eq!(
        DependencyTree::from_package_json(root, Some("{".to_string()), &StrMap::new()).unwrap_err(),
        "Failed to parse package.json"
    );
    let text = r#"{"dependencies":{"vue":"^3.3","lodash":"^4"},"devDependencies":{"vue":"^3.4","vite":"^5"}}"#;
    let mut installs = StrMap::new();
    installs.insert(
        "lodash",
        InstalledPackage { path: PathBuf::from("/proj/node_modules/lodash"), manifest: Some(r#"{"version":"4.17.21","dependencies":{"a":"1"}}"#.to_string()) },
    );
    let t = DependencyTree::from_package_json(root, Some(text.to_string()), &installs).unwrap();
    assert_eq!(t.dependencies.len(), 3);
    let vue = t.dependencies.get("vue").unwrap();
    assert_eq!(vue.version_req, "^3.4");
    assert!(vue.is_dev_dependency);
    assert!(vue.package_path.is_none());
    let lodash = t.dependencies.get("lodash").unwrap();
    assert_eq!(lodash.installed_version.as_deref(), Some("4.17.21"));
    assert_eq!(lodash.dependencies, vec!["a".to_string()]);
    assert!(t.dependencies.get("vite").unwrap().is_build_tool);
    assert!(t.runtime_dependencies.get("vite").is_none());
    assert_eq!(t.runtime_dependencies.len(), 2);
}

#[test]
fn installed_manifest_and_sections() {
    let (v, deps) = installed_manifest(&Some(r#"{"version":"1.0.0","dependencies":{"b":"1","c":"2"}}"#.to_string()));
    assert_eq!(v.as_deref(), Some("1.0.0"));
    assert_eq!(deps.len(), 2);
    assert_eq!(installed_manifest(&Some("nope".to_string())), (None, vec![]));
    assert_eq!(installed_manifest(&None), (None, vec![]));
    assert!(manifest_entries("{}", "dependencies").unwrap().is_empty());
    assert_eq!(manifest_string(r#"{"a": 1}"#, "a").unwrap(), None);
    assert!(manifest_string("x", "a").is_err());
}

#[test]
fn npm_resolver_follows_entry_imports_depth_first() {
    let mut c = VueProjectCompiler::new(PathBuf::from("/p"));
    let (mut r, a) = NpmResolver::new("a", &c);
    assert!(matches!(&a, NpmAction::ReadManifest(n) if n == "a"));
    let a = r.step(&mut c, NpmEvent::Manifest(ManifestRead::Read(Ok(r#"{"main":"lib.js"}"#.to_string()))));
    assert!(matches!(&a, NpmAction::ReadEntry { package, entry } if package == "a" && entry == "lib.js"));
    assert!(c.has_npm_package("a"));
    let a = r.step(&mut c, NpmEvent::Entry(Some(Ok(vec!["b".to_string(), "./local".to_string(), "c".to_string()]))));
    assert!(matches!(&a, NpmAction::ReadManifest(n) if n == "b"));
    let a = r.step(&mut c, NpmEvent::Manifest(ManifestRead::NoManifest));
    assert!(matches!(&a, NpmAction::ReadManifest(n) if n == "c"));
    let a = r.step(&mut c, NpmEvent::Manifest(ManifestRead::Read(Ok("{}".to_string()))));
    assert!(matches!(&a, NpmAction::ReadEntry { entry, .. } if entry == "index.js"));
    let a = r.step(&mut c, NpmEvent::Entry(Some(Ok(vec!["a".to_string()]))));
    assert!(matches!(a, NpmAction::Done));
    let (_, a) = NpmResolver::new("a", &c);
    assert!(matches!(a, NpmAction::Done));
    let (mut r, _) = NpmResolver::new("zz", &c);
    let a = r.step(&mut c, NpmEvent::Manifest(ManifestRead::NoPackage("\"/p/node_modules/zz\"".to_string())));
    assert!(matches!(&a, NpmAction::Failed(e) if e == "Package not found: \"/p/node_modules/zz\""));
}

#[test]
fn registry_answers_resolve_versions() {
    let body = r#"{"dist-tags":{"latest":"3.4.0"},"versions":{"3.4.0":{"dist":{"tarball":"https://r/vue-3.4.0.tgz"}}}}"#;
    let p = NpmDownloader::registry_version("vue", None, body).unwrap();
    assert_eq!(p.version, "3.4.0");
    assert_eq!(p.tarball_url, "https://r/vue-3.4.0.tgz");
    assert_eq!(NpmDownloader::registry_version("vue", None, "{}").unwrap_err(), "No 'latest' version found for vue");
    assert_eq!(
        NpmDownloader::registry_version("vue", None, r#"{"dist-tags":{"latest":"9"}}"#).unwrap_err(),
        "No tarball URL found for vue@9"
    );
    let p = NpmDownloader::registry_version("vue", Some("3.3.0"), r#"{"dist":{"tarball":"u"}}"#).unwrap();
    assert_eq!((p.version.as_str(), p.tarball_url.as_str()), ("3.3.0", "u"));
    assert_eq!(NpmDownloader::registry_version("vue", Some("1.0.0"), "nope").unwrap_err(), "Failed to parse package info JSON");
}
