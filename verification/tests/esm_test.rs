use iris::jetcrab::esm::{ESMModuleLoader, ESMModuleInfo, CycleDetector, ModuleFile, ModuleStatus};
use std::path::{Path, PathBuf};
#[test]
fn esm_test_create_loader() {
    let loader = ESMModuleLoader::new();
    assert_eq!(loader.cache_size(), 0);
}

#[test]
fn esm_test_parse_dependencies() {
    let code = r#"
        import Vue from 'vue';
        import App from './App.vue';
        import { ref } from 'vue';
        export { foo } from './utils';
    "#;

    let loader = ESMModuleLoader::new();
    let deps = loader.parse_dependencies(code).unwrap();

    // 应该包含所有依赖
    assert!(deps.iter().any(|d| d == "vue"));
    assert!(deps.iter().any(|d| d == "./App.vue"));
    assert!(deps.iter().any(|d| d == "./utils"));
}

#[test]
fn test_parse_exports() {
    let code = r#"
        export default function() {}
        export const foo = 1;
        export function bar() {}
        export class Baz {}
        export { a, b as c };
    "#;

    let loader = ESMModuleLoader::new();
    let exports = loader.parse_exports(code).unwrap();

    // 调试输出
    println!("Parsed exports: {:?}", exports);

    assert!(exports.contains(&"default".to_string()));
    assert!(exports.contains(&"foo".to_string()));
    assert!(exports.contains(&"bar".to_string()));
    assert!(exports.contains(&"Baz".to_string()));
    assert!(exports.contains(&"a".to_string()));
    assert!(exports.contains(&"c".to_string()));
}

#[test]
fn test_cycle_detector() {
    let mut detector = CycleDetector::new();

    // 正常情况
    assert!(detector.push("a").is_ok());
    assert!(detector.push("b").is_ok());
    detector.pop();
    detector.pop();

    // 循环依赖
    assert!(detector.push("a").is_ok());
    assert!(detector.push("b").is_ok());
    assert!(detector.push("a").is_err()); // 应该报错
}

#[test]
fn esm_test_parse_dependencies_dynamic_import() {
    let code = r#"
        const module = await import('./lazy.js');
        if (condition) {
            import('./conditional.js').then(m => m.init());
        }
    "#;

    let loader = ESMModuleLoader::new();
    let deps = loader.parse_dependencies(code).unwrap();

    assert!(deps.iter().any(|d| d == "./lazy.js"));
    assert!(deps.iter().any(|d| d == "./conditional.js"));
}

#[test]
fn test_parse_dependencies_no_duplicates() {
    let code = r#"
        import { a } from './utils.js';
        import { b } from './utils.js';
        import { c } from './utils.js';
    "#;

    let loader = ESMModuleLoader::new();
    let deps = loader.parse_dependencies(code).unwrap();

    // 应该去重
    assert_eq!(deps.len(), 1);
    assert_eq!(deps[0], "./utils.js");
}

#[test]
fn test_parse_dependencies_no_deps() {
    let code = r#"
        export function hello() {
            console.log("Hello");
        }
    "#;

    let loader = ESMModuleLoader::new();
    let deps = loader.parse_dependencies(code).unwrap();

    assert_eq!(deps.len(), 0);
}

#[test]
fn test_parse_exports_empty() {
    let code = r#"
        const x = 1;
        console.log(x);
    "#;

    let loader = ESMModuleLoader::new();
    let exports = loader.parse_exports(code).unwrap();

    assert_eq!(exports.len(), 0);
}

#[test]
fn test_module_status_enum() {
    assert_eq!(ModuleStatus::Unloaded, ModuleStatus::Unloaded);
    assert_eq!(ModuleStatus::Loading, ModuleStatus::Loading);
    assert_eq!(ModuleStatus::Loaded, ModuleStatus::Loaded);
    assert_eq!(ModuleStatus::Compiled, ModuleStatus::Compiled);

    let error1 = ModuleStatus::Error("err1".to_string());
    let error2 = ModuleStatus::Error("err2".to_string());
    assert_ne!(error1, error2);
}

#[test]
fn test_module_info_structure() {

    let module_info = ESMModuleInfo {
        path: PathBuf::from("/test/module.js"),
        code: "export const x = 1;".to_string(),
        dependencies: vec!["./dep.js".to_string()],
        exports: vec!["x".to_string()],
        compiled: false,
        compiled_code: None,
    };

    assert_eq!(module_info.path, PathBuf::from("/test/module.js"));
    assert_eq!(module_info.dependencies.len(), 1);
    assert_eq!(module_info.exports.len(), 1);
    assert!(!module_info.compiled);
    assert!(module_info.compiled_code.is_none());
}

#[test]
fn test_parse_dependencies_with_comments() {
    let code = r#"
        // 这是单行注释
        /* 这是多行注释 */
        import { foo } from './foo.js'; // 行内注释
        
        /**
         * JSDoc 注释
         * @returns {number}
         */
        export function bar() {
            return 42;
        }
    "#;

    let loader = ESMModuleLoader::new();
    let deps = loader.parse_dependencies(code).unwrap();

    assert_eq!(deps.len(), 1);
    assert_eq!(deps[0], "./foo.js");
}

#[test]
fn test_parse_dependencies_re_export() {
    let code = r#"
        export { default } from './component.js';
        export * from './utils.js';
        export { foo, bar } from './helpers.js';
    "#;

    let loader = ESMModuleLoader::new();
    let deps = loader.parse_dependencies(code).unwrap();

    assert!(deps.iter().any(|d| d == "./component.js"));
    assert!(deps.iter().any(|d| d == "./utils.js"));
    assert!(deps.iter().any(|d| d == "./helpers.js"));
}

#[test]
fn esm_test_add_search_path() {

    let mut loader = ESMModuleLoader::new();
    let path = Path::new("/tmp/test");
    loader.add_search_path(path);

    assert_eq!(loader.cache_size(), 0);
}

#[test]
fn test_cycle_detector_complex_cycle() {
    let mut detector = CycleDetector::new();

    detector.push("a").unwrap();
    detector.push("b").unwrap();
    detector.push("c").unwrap();
    detector.push("d").unwrap();

    // 尝试形成循环
    let result = detector.push("b");
    assert!(result.is_err());

    let error = result.unwrap_err();
    assert!(error.contains("Circular dependency detected"));
}

#[test]
fn test_cycle_detector_pop_empty() {
    let mut detector = CycleDetector::new();
    detector.pop(); // 不应该 panic
}

#[test]
fn test_parse_dependencies_mixed_imports() {
    let code = r#"
        import Vue from 'vue';
        import { ref, reactive } from 'vue';
        import App from './App.vue';
        import router from './router';
        export { store } from './store';
    "#;

    let loader = ESMModuleLoader::new();
    let deps = loader.parse_dependencies(code).unwrap();

    // vue 应该只出现一次（去重）
    let vue_count = deps.iter().filter(|d| *d == "vue").count();
    assert_eq!(vue_count, 1);

    assert!(deps.iter().any(|d| d == "./App.vue"));
    assert!(deps.iter().any(|d| d == "./router"));
    assert!(deps.iter().any(|d| d == "./store"));
}

#[test]
fn esm_candidate_names_in_order() {
    let loader = ESMModuleLoader::new();
    assert_eq!(
        loader.candidate_names("lib/a"),
        vec!["lib/a".to_string(), "lib/a.js".to_string(), "lib/a.mjs".to_string(), "lib/a/index.js".to_string()]
    );
}

#[test]
fn failed_load_can_be_retried() {
    let mut loader = ESMModuleLoader::new();
    assert!(matches!(loader.begin_load("p"), Ok(None)));
    loader.abort_load("p");
    assert!(matches!(loader.begin_load("p"), Ok(None)));
    loader.abort_load("q");
    assert!(loader.begin_load("p").is_err());
}

#[test]
fn exported_names_are_bare_identifiers() {
    let loader = ESMModuleLoader::new();
    let code = "export default function() {}\nexport const foo = 1;\nexport function bar() {}\nexport class Baz {}\nexport { a, b as c };";
    let exports = loader.parse_exports(code).unwrap();
    assert_eq!(exports, vec!["default", "foo", "bar", "Baz", "a", "c"]);
    assert_eq!(loader.parse_exports("export const [x] = y;").unwrap(), Vec::<String>::new());
}

#[test]
fn failed_load_leaves_loader_unchanged() {
    let mut loader = ESMModuleLoader::new();
    let e1 = loader.load_module("m", ModuleFile::NotFound).unwrap_err();
    assert_eq!(e1, "Module not found: m");
    let e2 = loader.load_module("m", ModuleFile::NotFound).unwrap_err();
    assert_eq!(e1, e2);
    assert_eq!(
        loader.load_module("m", ModuleFile::Unreadable("denied".to_string())).unwrap_err(),
        "Failed to read module: denied"
    );
    let m = loader
        .load_module("m", ModuleFile::Read(std::path::PathBuf::from("/m.js"), "export const a = 1;".to_string()))
        .unwrap();
    assert_eq!(m.exports, vec!["a".to_string()]);
    let again = loader.load_module("m", ModuleFile::NotFound).unwrap();
    assert_eq!(again.code, "export const a = 1;");
}
