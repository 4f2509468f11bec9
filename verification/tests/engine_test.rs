use iris::engine::engine::{EngineConfig, JetCrabEngine};
use iris::engine::project_scanner::{BuildTool, ProjectInfo, ProjectScanner};
use std::path::PathBuf;
use iris::strmap::StrMap;

fn info() -> ProjectInfo {
    ProjectInfo {
        root_dir: PathBuf::from("/p"),
        index_html_path: PathBuf::from("/p/index.html"),
        src_dir: PathBuf::from("/p/src"),
        entry_file: PathBuf::from("/p/src/main.ts"),
        package_json_path: None,
        build_tool: Some(BuildTool::Vite),
        vue_version: Some("^3.4.0".to_string()),
    }
}

#[test]
fn engine_defaults() {
    let c = EngineConfig::default();
    assert!(c.hmr_enabled);
    assert!(!c.debug);
    assert_eq!(c.ignore_patterns, vec!["node_modules", ".git", "dist", ".DS_Store"]);
    let e = JetCrabEngine::new();
    assert!(e.project_info().is_none());
    assert!(e.module_graph().is_empty());
}

#[test]
fn load_requires_initialize() {
    let mut e = JetCrabEngine::new();
    assert_eq!(e.load_project(info(), vec![]), Err("Engine not initialized".to_string()));
    assert_eq!(e.prepare_run().unwrap_err(), "Engine not initialized");
    assert!(e.initialize().is_ok());
    assert!(e.initialize().is_ok());
    assert_eq!(e.prepare_run().unwrap_err(), "No project loaded");
    let sources = vec![
        ("/p/src/main.ts".to_string(), "ts".to_string(), "import App from './App.vue'\nconst x = require('lodash')".to_string()),
        ("/p/src/App.vue".to_string(), "vue".to_string(), "<template/>".to_string()),
        ("/p/src/readme.md".to_string(), "md".to_string(), "import x from 'y'".to_string()),
    ];
    assert!(e.load_project(info(), sources).is_ok());
    assert_eq!(e.module_graph().len(), 2);
    assert_eq!(
        e.module_graph().get_dependencies("/p/src/main.ts").unwrap(),
        &vec!["./App.vue".to_string(), "lodash".to_string()]
    );
    assert!(e.module_graph().get_dependencies("/p/src/App.vue").unwrap().is_empty());
    assert_eq!(e.prepare_run().unwrap(), PathBuf::from("/p/src/main.ts"));
    assert_eq!(e.project_info().unwrap().vue_version.as_deref(), Some("^3.4.0"));
}

#[test]
fn ignore_and_js_dependencies() {
    let e = JetCrabEngine::default();
    assert!(e.should_ignore("node_modules"));
    assert!(e.should_ignore("my.git.dir"));
    assert!(!e.should_ignore("src"));
    let deps = e.parse_js_dependencies("import a from 'a'\nimport 'side'\n  import b from \"b\"\nrequire('c')");
    assert_eq!(deps, vec!["a".to_string(), "c".to_string()]);
}

#[test]
fn hmr_and_root_settings() {
    let mut e = JetCrabEngine::with_config(EngineConfig::default());
    e.enable_hmr(false);
    e.set_project_root(PathBuf::from("/x"));
    assert!(e.initialize().is_ok());
}

#[test]
fn build_tool_detection() {
    let deps = vec![("vue".to_string(), "^3.0.0".to_string())];
    let dev = vec![("vite".to_string(), "^5.0.0".to_string())];
    assert_eq!(ProjectScanner::detect_build_tool(&deps, &dev), BuildTool::Unknown);
    let dev = vec![("@vitejs/plugin-vue".to_string(), "npm:vite-plugin".to_string())];
    assert_eq!(ProjectScanner::detect_build_tool(&deps, &dev), BuildTool::Vite);
    let dev = vec![("@vue/cli-service".to_string(), "^5.0.0".to_string())];
    assert_eq!(ProjectScanner::detect_build_tool(&deps, &dev), BuildTool::VueCli);
    assert_eq!(ProjectScanner::detect_build_tool(&vec![], &vec![]), BuildTool::Unknown);
}

#[test]
fn entry_names_and_extensions() {
    let names = ProjectScanner::entry_file_names();
    assert_eq!(names, vec!["main.js", "main.ts", "main.jsx", "main.tsx", "index.js", "index.ts"]);
    assert!(ProjectScanner::is_script_extension("tsx"));
    assert!(!ProjectScanner::is_script_extension("vue"));
    let s = ProjectScanner::new(PathBuf::from("/p"));
    assert_eq!(s.root_dir(), &PathBuf::from("/p"));
}

#[test]
fn vue_version_prefers_runtime_string_entry() {
    let mut deps: StrMap<Option<String>> = StrMap::new();
    let mut dev: StrMap<Option<String>> = StrMap::new();
    assert_eq!(ProjectScanner::detect_vue_version(&deps, &dev), None);
    dev.insert("vue", Some("^3.3.0".to_string()));
    assert_eq!(ProjectScanner::detect_vue_version(&deps, &dev), Some("^3.3.0".to_string()));
    deps.insert("vue", None);
    assert_eq!(ProjectScanner::detect_vue_version(&deps, &dev), Some("^3.3.0".to_string()));
    deps.insert("vue", Some("^3.4.0".to_string()));
    assert_eq!(ProjectScanner::detect_vue_version(&deps, &dev), Some("^3.4.0".to_string()));
}

#[test]
fn source_extensions() {
    for e in ["vue", "js", "ts", "jsx", "tsx"] {
        assert!(JetCrabEngine::is_source_extension(e));
    }
    for e in ["css", "png", "", "JS"] {
        assert!(!JetCrabEngine::is_source_extension(e));
    }
}
