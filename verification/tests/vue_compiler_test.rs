use iris::engine::sfc_compiler::CompiledModule;
use iris::engine::vue_compiler::{CompilerOutput, ModuleKind, PackageInfo, VueProjectCompiler};
use std::path::{Path, PathBuf};

#[test]
fn test_extract_imports() {
    let script = r#"
            import { ref } from 'vue';
            import Foo from './components/Foo.vue';
            import Bar from "../Bar.vue";
            const module = await import('./lazy.vue');
            const req = require('./common.js');
        "#;

    let compiler = VueProjectCompiler::new(PathBuf::from("."));
    let imports = compiler.extract_imports(script, Path::new("App.vue")).unwrap();

    assert!(imports.contains(&"vue".to_string()));
    assert!(imports.contains(&"./components/Foo.vue".to_string()));
    assert!(imports.contains(&"../Bar.vue".to_string()));
    assert!(imports.contains(&"./lazy.vue".to_string()));
    assert!(imports.contains(&"./common.js".to_string()));
}

#[test]
fn test_resolve_path() {
    let compiler = VueProjectCompiler::new(PathBuf::from("/project"));

    let resolved = compiler.resolve_path("src/App.vue").unwrap();
    assert_eq!(resolved, PathBuf::from("/project/src/App.vue"));

    let resolved = compiler.resolve_path("./src/App.vue").unwrap();
    assert_eq!(resolved, PathBuf::from("/project/src/App.vue"));

    let resolved = compiler.resolve_path("/src/App.vue").unwrap();
    assert_eq!(resolved, PathBuf::from("/project/src/App.vue"));
}

#[test]
fn root_relative_strips_prefixes() {
    assert_eq!(VueProjectCompiler::root_relative_path("././a/b"), "a/b");
    assert_eq!(VueProjectCompiler::root_relative_path("//x"), "/x");
    assert_eq!(VueProjectCompiler::root_relative_path("../x"), "../x");
    let c = VueProjectCompiler::new(PathBuf::from("/project"));
    assert_eq!(c.node_modules_path(), &PathBuf::from("/project/node_modules"));
}

#[test]
fn module_kinds_and_assembly() {
    assert_eq!(VueProjectCompiler::module_kind("a/App.vue"), ModuleKind::Vue);
    assert_eq!(VueProjectCompiler::module_kind("main.tsx"), ModuleKind::TypeScript);
    assert_eq!(VueProjectCompiler::module_kind("x.css"), ModuleKind::Css);
    assert_eq!(VueProjectCompiler::module_kind("x.sass"), ModuleKind::Scss);
    assert_eq!(VueProjectCompiler::module_kind("x.less"), ModuleKind::Less);
    assert_eq!(VueProjectCompiler::module_kind("x.js"), ModuleKind::Script);
    let m = VueProjectCompiler::assemble_module("s.scss", ModuleKind::Scss, "a{b:c}".to_string());
    assert_eq!(m.script, "// SCSS module: s.scss\nexport default {}");
    assert_eq!(m.styles.len(), 1);
    assert_eq!(m.styles[0].code, "a{b:c}");
    assert!(!m.styles[0].scoped);
    let j = VueProjectCompiler::assemble_module("a.js", ModuleKind::Script, "let a;".to_string());
    assert_eq!(j.script, "let a;");
    assert!(j.styles.is_empty() && j.deps.is_empty());
}

#[test]
fn compiled_modules_are_cached() {
    let mut c = VueProjectCompiler::new(PathBuf::from("/p"));
    assert!(c.cached_module("a.js").is_none());
    let m = CompiledModule { script: "x".to_string(), styles: vec![], deps: vec!["y".to_string()] };
    let r = c.record_compiled("a.js", m);
    assert_eq!(r.script, "x");
    assert_eq!(c.cached_module("a.js").unwrap().deps, vec!["y".to_string()]);
    let m2 = CompiledModule { script: "z".to_string(), styles: vec![], deps: vec![] };
    c.record_compiled("a.js", m2);
    assert_eq!(c.get_cache_stats(), (1, 1));
    assert_eq!(c.cached_module("a.js").unwrap().script, "z");
}

#[test]
fn packages_from_manifests() {
    let (p, entry) = PackageInfo::from_manifest("vue", None, Some("3.4.0".to_string()), None, Some("dist/vue.esm.js".to_string()), None, None, Some("types.d.ts".to_string()));
    assert_eq!(p.name, "vue");
    assert_eq!(p.version, "3.4.0");
    assert_eq!(p.main, "index.js");
    assert_eq!(entry, "dist/vue.esm.js");
    assert_eq!(p.types.as_deref(), Some("types.d.ts"));
    let (q, entry) = PackageInfo::from_manifest("x", Some("y".to_string()), None, Some("lib.js".to_string()), None, None, None, None);
    assert_eq!(q.name, "y");
    assert_eq!(q.version, "unknown");
    assert_eq!(entry, "lib.js");
    let mut c = VueProjectCompiler::new(PathBuf::from("/p"));
    assert!(!c.has_npm_package("x"));
    c.record_npm_package("x", q);
    assert!(c.has_npm_package("x"));
    assert_eq!(c.npm_packages().len(), 1);
}

#[test]
fn compile_scss_with_grass() {
    let grass_of = |s: &str| grass::from_string(s.to_string(), &grass::Options::default()).map_err(|e| e.to_string());
    let css = VueProjectCompiler::scss_outcome("x.scss", grass_of("$w: 10px; .a { .b { width: $w; } }")).unwrap();
    assert!(css.contains(".a .b"));
    assert!(css.contains("width: 10px"));
    let err = VueProjectCompiler::scss_outcome("bad.scss", grass_of(".a { width: ")).unwrap_err();
    assert_eq!(err, "Failed to compile SCSS: bad.scss");
}

#[test]
fn scss_outcome_maps_errors() {
    assert_eq!(VueProjectCompiler::scss_outcome("f.scss", Ok("p{}".to_string())), Ok("p{}".to_string()));
    assert_eq!(
        VueProjectCompiler::scss_outcome("f.scss", Err("parse".to_string())),
        Err("Failed to compile SCSS: f.scss".to_string())
    );
}

#[test]
fn ts_dependencies_add_type_imports_once() {
    let c = VueProjectCompiler::new(PathBuf::from("."));
    let content = "import type { A } from './a';\nimport { b } from './b';\nlet x = 1; import type{ T } from './t';\nimport type { B } from './b';";
    let deps = c.parse_ts_dependencies(content, Path::new("m.ts")).unwrap();
    assert_eq!(deps, vec!["./a".to_string(), "./b".to_string(), "./b".to_string(), "./t".to_string()]);
}

#[test]
fn compile_from_source_caches_scripts() {
    let mut c = VueProjectCompiler::new(PathBuf::from("."));
    let m = c.compile_single_module("/p/a.js", "let a = 1;".to_string(), CompilerOutput::Text(String::new())).unwrap();
    assert_eq!(m.script, "let a = 1;");
    assert!(m.styles.is_empty() && m.deps.is_empty());
    assert_eq!(c.get_cache_stats().0, 1);
    // A second compile gives the cached module, whatever the text.
    let again = c.compile_single_module("/p/a.js", "changed".to_string(), CompilerOutput::Failed("x".to_string())).unwrap();
    assert_eq!(again.script, "let a = 1;");
    assert_eq!(c.get_cache_stats().0, 1);
    // A style sheet takes its compiler's output; an error changes nothing.
    let e = c.compile_single_module("/p/s.scss", "$x: 1;".to_string(), CompilerOutput::Failed("bad".to_string()));
    assert_eq!(e.unwrap_err(), "bad");
    assert_eq!(c.get_cache_stats().0, 1);
    let s = c.compile_single_module("/p/s.scss", "$x: 1;".to_string(), CompilerOutput::Text("p{}".to_string())).unwrap();
    assert_eq!(s.script, "// SCSS module: /p/s.scss\nexport default {}");
    assert_eq!(s.styles[0].code, "p{}");
    assert!(!s.styles[0].scoped);
}
