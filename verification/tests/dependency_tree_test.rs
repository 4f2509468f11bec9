use iris::engine::dependency_tree::{to_hex, ChangeType, ChangedDependency, DependencyInfo, DependencyTree};
use iris::strmap::StrMap;

fn info(name: &str, installed: Option<&str>) -> DependencyInfo {
    DependencyInfo {
        name: name.to_string(),
        version_req: "^1.0.0".to_string(),
        installed_version: installed.map(|s| s.to_string()),
        is_dev_dependency: false,
        is_build_tool: false,
        package_path: None,
        dependencies: vec![],
    }
}

fn tree(deps: StrMap<DependencyInfo>, hash: &str) -> DependencyTree {
    DependencyTree {
        project_root: std::path::PathBuf::from("/tmp/test"),
        dependencies: deps,
        runtime_dependencies: StrMap::new(),
        dependency_hash: String::from(hash),
    }
}

#[test]
fn test_dependency_tree_creation() {
    let dep_tree = DependencyTree {
        project_root: std::path::PathBuf::from("/tmp/test"),
        dependencies: StrMap::new(),
        runtime_dependencies: StrMap::new(),
        dependency_hash: String::from("test"),
    };

    assert_eq!(dep_tree.dependencies.len(), 0);
}

#[test]
fn test_is_build_tool() {
    assert!(DependencyTree::is_build_tool("vite"));
    assert!(DependencyTree::is_build_tool("webpack"));
    assert!(DependencyTree::is_build_tool("@babel/core"));
    assert!(DependencyTree::is_build_tool("typescript"));

    assert!(!DependencyTree::is_build_tool("vue"));
    assert!(!DependencyTree::is_build_tool("axios"));
    assert!(!DependencyTree::is_build_tool("lodash"));
}

#[test]
fn test_dependency_hash() {
    let mut deps1 = StrMap::new();
    let mut deps2 = StrMap::new();

    let dep1 = DependencyInfo {
        name: "vue".to_string(),
        version_req: "^3.0.0".to_string(),
        installed_version: Some("3.4.0".to_string()),
        is_dev_dependency: false,
        is_build_tool: false,
        package_path: None,
        dependencies: vec![],
    };

    deps1.insert("vue", dep1.copy());
    deps2.insert("vue", dep1);

    let hash1 = DependencyTree::calculate_hash(&deps1);
    let hash2 = DependencyTree::calculate_hash(&deps2);

    assert_eq!(hash1, hash2);
}

#[test]
fn test_dependency_change_detection() {
    let mut old_deps = StrMap::new();
    let mut new_deps = StrMap::new();

    let old_vue = DependencyInfo {
        name: "vue".to_string(),
        version_req: "^3.0.0".to_string(),
        installed_version: Some("3.3.0".to_string()),
        is_dev_dependency: false,
        is_build_tool: false,
        package_path: None,
        dependencies: vec![],
    };

    let new_vue = DependencyInfo {
        name: "vue".to_string(),
        version_req: "^3.0.0".to_string(),
        installed_version: Some("3.4.0".to_string()),
        is_dev_dependency: false,
        is_build_tool: false,
        package_path: None,
        dependencies: vec![],
    };

    old_deps.insert("vue", old_vue);
    new_deps.insert("vue", new_vue);

    let old_tree = DependencyTree {
        project_root: std::path::PathBuf::from("/tmp/test"),
        dependencies: old_deps,
        runtime_dependencies: StrMap::new(),
        dependency_hash: String::from("old"),
    };

    let new_tree = DependencyTree {
        project_root: std::path::PathBuf::from("/tmp/test"),
        dependencies: new_deps,
        runtime_dependencies: StrMap::new(),
        dependency_hash: String::from("new"),
    };

    assert!(old_tree.has_changed(&new_tree));

    let changes = old_tree.get_changed_dependencies(&new_tree);
    assert_eq!(changes.len(), 1);
    assert_eq!(changes[0].name, "vue");
}

#[test]
fn build_tool_with_version_suffix() {
    assert!(DependencyTree::is_build_tool("vite@5.0.0"));
    assert!(!DependencyTree::is_build_tool("vitex"));
    assert!(!DependencyTree::is_build_tool("vue@3.4.0"));
}

#[test]
fn hash_ignores_insertion_order() {
    let mut a = StrMap::new();
    a.insert("vue", info("vue", Some("3.4.0")));
    a.insert("axios", info("axios", None));
    let mut b = StrMap::new();
    b.insert("axios", info("axios", None));
    b.insert("vue", info("vue", Some("3.4.0")));
    assert_eq!(DependencyTree::calculate_hash(&a), DependencyTree::calculate_hash(&b));
    let mut c = StrMap::new();
    c.insert("axios", info("axios", None));
    c.insert("vue", info("vue", Some("3.5.0")));
    assert_ne!(DependencyTree::calculate_hash(&a), DependencyTree::calculate_hash(&c));
}

#[test]
fn hash_is_lowercase_hex() {
    let mut a = StrMap::new();
    a.insert("vue", info("vue", Some("3.4.0")));
    let h = DependencyTree::calculate_hash(&a);
    assert!(!h.is_empty() && h.len() <= 16);
    assert!(h.chars().all(|c| c.is_ascii_hexdigit() && !c.is_ascii_uppercase()));
    assert_eq!(to_hex(255), "ff");
    assert_eq!(to_hex(0), "0");
    assert_eq!(to_hex(4096), "1000");
}

#[test]
fn changes_added_updated_removed() {
    let mut old_deps = StrMap::new();
    old_deps.insert("vue", info("vue", Some("3.3.0")));
    old_deps.insert("lodash", info("lodash", Some("4.0.0")));
    old_deps.insert("pinia", info("pinia", None));
    let mut new_deps = StrMap::new();
    new_deps.insert("vue", info("vue", Some("3.4.0")));
    new_deps.insert("axios", info("axios", Some("1.0.0")));
    new_deps.insert("pinia", info("pinia", Some("2.0.0")));
    let old_tree = tree(old_deps, "a");
    let new_tree = tree(new_deps, "a");
    assert!(!old_tree.has_changed(&new_tree));
    let changes = old_tree.get_changed_dependencies(&new_tree);
    assert_eq!(changes.len(), 4);
    assert_eq!(changes[0].name, "vue");
    assert_eq!(changes[0].change_type, ChangeType::Updated);
    assert_eq!(changes[0].old_version.as_deref(), Some("3.3.0"));
    assert_eq!(changes[0].new_version.as_deref(), Some("3.4.0"));
    assert_eq!(changes[1].name, "axios");
    assert_eq!(changes[1].change_type, ChangeType::Added);
    assert_eq!(changes[1].old_version, None);
    assert_eq!(changes[2].name, "pinia");
    assert_eq!(changes[2].change_type, ChangeType::Added);
    assert_eq!(changes[3].name, "lodash");
    assert_eq!(changes[3].change_type, ChangeType::Removed);
    assert_eq!(changes[3].new_version, None);
}

#[test]
fn no_changes_between_equal_trees() {
    let mut a = StrMap::new();
    a.insert("vue", info("vue", Some("3.4.0")));
    let mut b = StrMap::new();
    b.insert("vue", info("vue", Some("3.4.0")));
    let ta = tree(a, "x");
    let tb = tree(b, "x");
    assert!(ta.get_changed_dependencies(&tb).is_empty());
    assert!(!ta.has_changed(&tb));
}

#[test]
fn modules_to_rebuild_each_once() {
    let t = tree(StrMap::new(), "h");
    let changes = vec![
        ChangedDependency { name: "vue".to_string(), old_version: None, new_version: None, change_type: ChangeType::Added },
        ChangedDependency { name: "axios".to_string(), old_version: None, new_version: None, change_type: ChangeType::Removed },
    ];
    let mut mods: StrMap<Vec<String>> = StrMap::new();
    mods.insert("App.vue", vec!["vue".to_string(), "axios".to_string()]);
    mods.insert("api.js", vec!["axios".to_string()]);
    mods.insert("util.js", vec!["lodash".to_string()]);
    let r = t.get_modules_to_rebuild(&changes, &mods);
    assert_eq!(r, vec!["App.vue".to_string(), "api.js".to_string()]);
    assert!(t.get_modules_to_rebuild(&[], &mods).is_empty());
}

#[test]
fn tree_from_dependencies_separates_build_tools() {
    let vue = DependencyInfo::new("vue", "^3.0.0", false, None, Some("3.4.0".to_string()), vec![]);
    let vite = DependencyInfo::new("vite", "^5.0.0", true, None, None, vec![]);
    assert!(!vue.is_build_tool);
    assert!(vite.is_build_tool);
    let t = DependencyTree::from_dependencies(std::path::Path::new("/tmp/p"), vec![vue, vite]);
    assert_eq!(t.dependencies.len(), 2);
    assert_eq!(t.runtime_dependencies.len(), 1);
    assert!(t.runtime_dependencies.contains_key("vue"));
    assert_eq!(t.dependency_hash, DependencyTree::calculate_hash(&t.dependencies));
}

#[test]
fn package_path_parts_scoped_and_plain() {
    assert_eq!(DependencyTree::package_path_parts("vue"), Some(vec!["vue".to_string()]));
    assert_eq!(
        DependencyTree::package_path_parts("@vue/cli"),
        Some(vec!["@vue".to_string(), "cli".to_string()])
    );
    assert_eq!(DependencyTree::package_path_parts("@vue"), None);
    assert_eq!(DependencyTree::package_path_parts("@a/b/c"), None);
}
