use iris::engine::sfc_compiler::{compile_parsed_sfc, parse_dependencies, resolution_candidates, resolve_module, StyleBlock};

#[test]
fn sfc_compiler_test_parse_dependencies() {
    let script = r#"
            import { ref } from 'vue';
            import Foo from './components/Foo.vue';
            import Bar from '../Bar';
        "#;

    let deps = parse_dependencies(script).unwrap();
    assert!(deps.contains(&"vue".to_string()));
    assert!(deps.contains(&"./components/Foo.vue".to_string()));
    assert!(deps.contains(&"../Bar".to_string()));
}

#[test]
fn sfc_compiler_test_parse_dependencies_dynamic_import() {
    let script = r#"
            const module = await import('./lazy.vue');
        "#;

    let deps = parse_dependencies(script).unwrap();
    assert!(deps.contains(&"./lazy.vue".to_string()));
}

#[test]
fn test_resolve_module() {
    let resolved = resolve_module("./Foo.vue", "/src/App.vue", &[], &[]).unwrap();
    assert_eq!(resolved, "/src/Foo.vue");

    let resolved = resolve_module("vue", "/src/App.vue", &[], &[]).unwrap();
    assert_eq!(resolved, "vue");
}

#[test]
fn test_resolve_module_adds_extension() {
    let resolved = resolve_module("./Foo", "/src/App.vue", &[], &[]).unwrap();
    assert_eq!(resolved, "/src/Foo.vue");
}

#[test]
fn resolve_prefers_existing_files() {
    let files = vec!["/src/Foo.ts".to_string(), "/src/Foo.js".to_string()];
    assert_eq!(resolve_module("./Foo", "/src/App.vue", &files, &[]).unwrap(), "/src/Foo.ts");
    let files = vec!["/src/lib/index.js".to_string()];
    let dirs = vec!["/src/lib".to_string()];
    assert_eq!(resolve_module("./lib", "/src/App.vue", &files, &dirs).unwrap(), "/src/lib/index.js");
    assert_eq!(resolve_module("../x.js", "/src/a/B.vue", &[], &[]).unwrap(), "/src/a/../x.js");
    assert_eq!(resolve_module("/abs/C", "/src/App.vue", &[], &[]).unwrap(), "/abs/C.vue");
}

#[test]
fn candidates_cover_extensions_and_index_files() {
    let c = resolution_candidates("./Foo", "/src/App.vue");
    assert_eq!(c.len(), 12);
    assert_eq!(c[0], "/src/Foo");
    assert_eq!(c[1], "/src/Foo.vue");
    assert_eq!(c[6], "/src/Foo.mjs");
    assert_eq!(c[7], "/src/Foo/index.ts");
    assert!(resolution_candidates("vue", "/src/App.vue").is_empty());
}

#[test]
fn render_goes_into_setup_return() {
    let script = "export default {\n  setup() {\n    const n = 1;\n    return { n };\n  }\n}";
    let m = compile_parsed_sfc(script, "function render() {}", vec![]);
    assert_eq!(
        m.script,
        "import { h } from 'vue';\nexport default {\n  setup() {\n    const n = 1;\n    return function render() {}\n  }\n}"
    );
    assert_eq!(m.deps, vec!["vue".to_string()]);
}

#[test]
fn render_without_script_makes_export() {
    let m = compile_parsed_sfc("", "r", vec![StyleBlock { code: "a{}".to_string(), scoped: true }]);
    assert_eq!(m.script, "import { h } from 'vue';\nexport default {\n  render: r\n}");
    assert_eq!(m.styles.len(), 1);
    assert!(m.styles[0].scoped);
}

#[test]
fn render_added_to_export_without_return() {
    let m = compile_parsed_sfc("import { h } from 'vue';\nexport default { name: 'A' }", "r", vec![]);
    assert_eq!(m.script, "import { h } from 'vue';\nexport default {\n  render: r, name: 'A' }");
}

#[test]
fn no_render_keeps_script() {
    let m = compile_parsed_sfc("const a = import('./x.js');", "", vec![]);
    assert_eq!(m.script, "const a = import('./x.js');");
    assert_eq!(m.deps, vec!["./x.js".to_string()]);
}

#[test]
fn script_without_export_is_spread() {
    let m = compile_parsed_sfc("const x = 1", "r", vec![]);
    assert_eq!(m.script, "import { h } from 'vue';\nexport default {\n  render: r,\n  ...const x = 1\n}");
}
