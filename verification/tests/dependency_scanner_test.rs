use iris::engine::dependency_scanner::{local_import_candidates, DependencyScanner, IssueType, ManifestDeps};
use iris::strmap::StrMap;
use std::path::PathBuf;

fn scanner() -> DependencyScanner {
    let mut declared = StrMap::new();
    declared.set_str("vue", "^3.0.0");
    let mut resolved = StrMap::new();
    resolved.set_str("axios", "1.6.0");
    DependencyScanner::new(PathBuf::from("."), declared, resolved, vec!["lodash".to_string()])
}

#[test]
fn test_extract_import_path() {
    let scanner = DependencyScanner::new(PathBuf::from("."), StrMap::new(), StrMap::new(), Vec::new());

    assert_eq!(scanner.extract_import_path("import { ref } from 'vue'"), Some("vue".to_string()));
    assert_eq!(scanner.extract_import_path("import App from './App.vue'"), Some("./App.vue".to_string()));
    assert_eq!(scanner.extract_import_path("import 'vue'"), Some("vue".to_string()));
    assert_eq!(
        scanner.extract_import_path("const mod = require('./common.js')"),
        Some("./common.js".to_string())
    );
}

#[test]
fn extract_import_variants() {
    let s = scanner();
    assert_eq!(s.extract_import_path("import x from \"./a.js\""), Some("./a.js".to_string()));
    assert_eq!(s.extract_import_path("const m = import('./lazy.vue')"), Some("./lazy.vue".to_string()));
    assert_eq!(s.extract_import_path("let x = 1"), None);
    assert_eq!(s.extract_import_path("import x from y"), None);
}

#[test]
fn imports_in_source_skip_comments() {
    let s = scanner();
    let src = "import a from 'a'\n// import b from 'b'\n  import c from './c'\n";
    let r = s.imports_in_source(src);
    assert_eq!(r, vec![("a".to_string(), 1), ("./c".to_string(), 3)]);
    let n = s.npm_imports_in_source(src);
    assert_eq!(n, vec!["a".to_string()]);
}

#[test]
fn undeclared_packages_are_reported() {
    let s = scanner();
    let mut issues = Vec::new();
    s.check_npm_package("vue", "src/main.ts", 1, false, &mut issues);
    s.check_npm_package("axios", "src/main.ts", 2, false, &mut issues);
    assert!(issues.is_empty());
    s.check_npm_package("element-plus", "src/main.ts", 3, false, &mut issues);
    assert_eq!(issues.len(), 1);
    assert_eq!(issues[0].issue_type, IssueType::MissingNpmPackage);
    assert_eq!(issues[0].severity, "error");
    assert!(issues[0].can_auto_fix);
    assert_eq!(issues[0].source_line, Some(3));
    assert!(issues[0].solution.contains("element-plus@latest"));
    s.check_npm_package("lodash", "src/main.ts", 4, false, &mut issues);
    assert_eq!(issues[1].severity, "warning");
    assert!(!issues[1].can_auto_fix);
    assert_eq!(issues[1].description, "npm 包 'lodash' 在 'src/main.ts' 中引用，但未在 package.json 中声明");
}

#[test]
fn missing_local_files_by_extension() {
    let s = scanner();
    let mut issues = Vec::new();
    s.check_local_file("./App.vue", "src/main.ts", 1, true, &mut issues);
    assert!(issues.is_empty());
    s.check_import("./styles.css".to_string(), "src/main.ts", 2, false, false, &mut issues);
    s.check_import("./logo.png".to_string(), "src/main.ts", 3, false, false, &mut issues);
    s.check_import("./Comp.vue".to_string(), "src/main.ts", 4, false, false, &mut issues);
    s.check_import("./data.json".to_string(), "src/main.ts", 5, false, false, &mut issues);
    assert_eq!(issues.len(), 4);
    assert_eq!(issues[0].issue_type, IssueType::MissingCssFile);
    assert_eq!(issues[1].issue_type, IssueType::MissingAsset);
    assert_eq!(issues[2].issue_type, IssueType::MissingLocalFile);
    assert_eq!(issues[2].severity, "warning");
    assert_eq!(issues[3].issue_type, IssueType::MissingLocalFile);
    assert_eq!(issues[3].severity, "info");
    assert_eq!(issues[3].solution, "跳过缺失的文件引用 './data.json'");
}

#[test]
fn uninstalled_packages_each_once() {
    let s = scanner();
    let imported = vec![
        "vue".to_string(),
        "pinia".to_string(),
        "axios".to_string(),
        "pinia".to_string(),
        "lodash".to_string(),
        "dayjs".to_string(),
    ];
    let on_disk = vec!["dayjs".to_string()];
    assert_eq!(s.find_uninstalled_npm_packages(&imported, &on_disk), vec!["pinia".to_string()]);
}

fn manifest(deps: &[(&str, Option<&str>)], peers: &[(&str, Option<&str>)]) -> ManifestDeps {
    let mut dependencies = StrMap::new();
    for (k, v) in deps {
        dependencies.insert(k, v.map(|s| s.to_string()));
    }
    let mut peer_dependencies = StrMap::new();
    for (k, v) in peers {
        peer_dependencies.insert(k, v.map(|s| s.to_string()));
    }
    ManifestDeps { dependencies, peer_dependencies }
}

#[test]
fn resolve_version_from_installed_manifests() {
    let s = scanner();
    let ms = vec![
        Some(manifest(&[("a", Some("1.0.0"))], &[])),
        Some(manifest(&[], &[("vue", Some("^3.4.0"))])),
        Some(manifest(&[("vue", Some("3.0.0"))], &[])),
    ];
    assert_eq!(s.resolve_package_version("vue", &ms), Some("^3.4.0".to_string()));
    assert_eq!(s.resolve_package_version("a", &ms), Some("1.0.0".to_string()));
    assert_eq!(s.resolve_package_version("zzz", &ms), None);
}

#[test]
fn resolve_version_stops_at_unreadable_or_non_string() {
    let s = scanner();
    let ms = vec![Some(manifest(&[], &[])), None, Some(manifest(&[("vue", Some("3.0.0"))], &[]))];
    assert_eq!(s.resolve_package_version("vue", &ms), None);
    let ms2 = vec![Some(manifest(&[("vue", None)], &[("vue", Some("3.0.0"))]))];
    assert_eq!(s.resolve_package_version("vue", &ms2), None);
    assert_eq!(s.resolve_package_version("vue", &Vec::new()), None);
}

#[test]
fn local_candidates_relative_with_dots() {
    let c = local_import_candidates("/p", "../lib/./util", "/p/src/views/Home.vue");
    let b = "/p/src/lib/util".to_string();
    let mut want = vec![b.clone()];
    for e in ["", ".vue", ".js", ".ts", ".jsx", ".tsx", ".mjs", ".css", ".scss"] {
        want.push(format!("{}{}", b, e));
    }
    assert_eq!(c, want);
}

#[test]
fn local_candidates_root_and_non_local() {
    assert_eq!(local_import_candidates("/p", "/src/a.vue", "/p/x.js"), vec!["/p/src/a.vue".to_string()]);
    assert_eq!(local_import_candidates("/p/", "/a", "/p/x.js"), vec!["/p/a".to_string()]);
    assert!(local_import_candidates("/p", "vue", "/p/x.js").is_empty());
    assert!(local_import_candidates("/p", ".hidden", "/p/x.js").is_empty());
    assert!(local_import_candidates("/p", "./a", "/").is_empty());
    assert_eq!(local_import_candidates("/p", "../../../a", "/p/x.js")[0], "/a".to_string());
    assert_eq!(local_import_candidates("/p", "./a", "rel.js")[0], "a".to_string());
}
