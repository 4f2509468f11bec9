use iris::jetcrab::module::ModuleLoader;
use std::path::Path;
#[test]
fn module_test_create_loader() {
    let loader = ModuleLoader::new();
    assert_eq!(loader.cache_size(), 0);
}

#[test]
fn module_test_add_search_path() {
    let mut loader = ModuleLoader::new();
    loader.add_search_path(Path::new("/tmp"));
    assert_eq!(loader.search_paths.len(), 1);
}

#[test]
fn test_clear_cache() {
    let mut loader = ModuleLoader::new();
    loader.clear_cache();
    assert_eq!(loader.cache_size(), 0);
}

#[test]
fn module_test_parse_dependencies() {
    let code = r#"
        import Vue from 'vue';
        import App from './App.vue';
        import { ref } from 'vue';
    "#;

    let loader = ModuleLoader::new();
    let deps = loader.parse_dependencies(code).unwrap();
    
    // 应该只包含外部依赖（不包含相对路径）
    assert!(deps.iter().any(|d| d == "vue"));
}

#[test]
fn module_candidate_names_in_order() {
    let loader = ModuleLoader::new();
    assert_eq!(
        loader.candidate_names("x"),
        vec!["x".to_string(), "x.js".to_string(), "x/index.js".to_string()]
    );
}

#[test]
fn only_external_dependencies_are_kept() {
    let loader = ModuleLoader::new();
    let code = "import Vue from 'vue';\nimport App from './App.vue';\nexport * from '/abs/x.js';\nimport { ref } from 'vue';";
    assert_eq!(loader.parse_dependencies(code).unwrap(), vec!["vue".to_string(), "vue".to_string()]);
}
