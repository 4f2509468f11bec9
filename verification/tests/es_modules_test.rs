use iris::js::es_modules::{collect_modules, rewrite_line, EsModules, LineMatches};

#[test]
fn test_parse_imports() {
    let esm = EsModules::new();
    let code = r#"
        import { foo, bar } from './utils';
        import * as helpers from './helpers';
        import Vue from 'vue';
        import './styles.css';
    "#;
    
    let imports = esm.parse_imports(code);
    assert_eq!(imports.len(), 4);
    assert!(imports.contains(&"./utils".to_string()));
    assert!(imports.contains(&"./helpers".to_string()));
    assert!(imports.contains(&"vue".to_string()));
    assert!(imports.contains(&"./styles.css".to_string()));
}

#[test]
fn test_transform_named_import() {
    let esm = EsModules::new();
    let code = r#"import { foo, bar } from './utils';"#;
    let transformed = esm.transform_module("test.js", code);
    
    assert!(transformed.contains("__getModule('./utils')"));
    assert!(transformed.contains("var foo = __mod['foo']"));
    assert!(transformed.contains("var bar = __mod['bar']"));
}

#[test]
fn test_transform_export_default() {
    let esm = EsModules::new();
    let code = r#"export default function App() {}"#;
    let transformed = esm.transform_module("test.js", code);
    
    assert!(transformed.contains("exports['default']"));
}

#[test]
fn test_transform_export_named() {
    let esm = EsModules::new();
    let code = r#"export const name = 'test';"#;
    let transformed = esm.transform_module("test.js", code);
    
    assert!(transformed.contains("const name = 'test'"));
    assert!(transformed.contains("exports['name'] = name"));
}

#[test]
fn test_transform_export_object() {
    let esm = EsModules::new();
    let code = r#"
        const a = 1;
        const b = 2;
        export { a, b };
    "#;
    let transformed = esm.transform_module("test.js", code);
    
    assert!(transformed.contains("exports['a'] = a"));
    assert!(transformed.contains("exports['b'] = b"));
}

#[test]
fn test_transform_namespace_import() {
    let esm = EsModules::new();
    let code = r#"import * as utils from './utils';"#;
    let transformed = esm.transform_module("test.js", code);
    
    assert!(transformed.contains("var utils = __getModule('./utils')"));
}

#[test]
fn test_transform_default_import() {
    let esm = EsModules::new();
    let code = r#"import Vue from 'vue';"#;
    let transformed = esm.transform_module("test.js", code);
    
    assert!(transformed.contains("var Vue = __mod['default'] || __mod"));
}


fn wrapped(body: &str) -> String {
    format!(
        "(function() {{\n  var exports = {{}};\n  var __module = {{}};\n\n{}\n  __registerModule('m.js', function() {{\n    return exports;\n  }});\n}})();\n",
        body
    )
}

#[test]
fn transform_exact_output() {
    let esm = EsModules::new();
    let code = "import { a , b } from './x';\nconst c = 1;\nexport default c;";
    let out = esm.transform_module("m.js", code);
    let body = "  var __mod = __getModule('./x');\n  var a = __mod['a'];\n  var b = __mod['b'];\n  const c = 1;\n  exports['default'] = c;;\n";
    assert_eq!(out, wrapped(body));
}

#[test]
fn transform_keeps_plain_lines_untrimmed() {
    let esm = EsModules::new();
    let out = esm.transform_module("m.js", "  let x = 2;\r\n");
    assert_eq!(out, wrapped("    let x = 2;\n"));
    assert_eq!(esm.transform_module("m.js", ""), wrapped(""));
}

#[test]
fn transform_export_declaration_without_name() {
    let esm = EsModules::new();
    let out = esm.transform_module("m.js", "export async () => 1");
    assert_eq!(out, wrapped("  async () => 1\n"));
    let out2 = esm.transform_module("m.js", "export function go() {}");
    assert_eq!(out2, wrapped("  function go() {}\n  exports['go'] = go;\n"));
}

#[test]
fn transform_import_that_matches_no_pattern_is_kept() {
    let esm = EsModules::new();
    let out = esm.transform_module("m.js", "import {} from 'x';");
    assert_eq!(out, wrapped("  import {} from 'x';\n"));
}

#[test]
fn parse_imports_order_and_duplicates() {
    let esm = EsModules::new();
    let code = "import './a.css';\nimport x from 'y';\nimport { z } from \"w\";";
    assert_eq!(esm.parse_imports(code), vec!["y".to_string(), "w".to_string(), "./a.css".to_string()]);
    assert!(esm.parse_imports("let a = 1;").is_empty());
}

#[test]
fn collect_modules_takes_group_one() {
    let matches = vec![
        vec![Some("import a from 'p'".to_string()), Some("p".to_string())],
        vec![Some("whole".to_string()), None],
        vec![Some("whole".to_string())],
        vec![Some("import 'q'".to_string()), Some("q".to_string())],
    ];
    let mut out = vec!["first".to_string()];
    collect_modules(&matches, &mut out);
    assert_eq!(out, vec!["first".to_string(), "p".to_string(), "q".to_string()]);
}

#[test]
fn rewrite_line_uses_given_matches() {
    let none = LineMatches { named_import: None, namespace_import: None, default_import: None, export_names: None, declared_name: None };
    assert_eq!(rewrite_line("import * as u from 'v'", &none), "  import * as u from 'v'\n");
    let m = LineMatches {
        named_import: None,
        namespace_import: Some(vec![vec![Some("all".to_string()), Some("u".to_string()), Some("v".to_string())]]),
        default_import: None,
        export_names: None,
        declared_name: None,
    };
    assert_eq!(rewrite_line("import * as u from 'v'", &m), "  var u = __getModule('v');\n");
    let e = LineMatches {
        named_import: None,
        namespace_import: None,
        default_import: None,
        export_names: Some(vec![vec![Some("export { p,q }".to_string()), Some(" p, q ".to_string())]]),
        declared_name: None,
    };
    assert_eq!(rewrite_line(" export { p,q }", &e), "  exports['p'] = p;\n  exports['q'] = q;\n");
    assert_eq!(rewrite_line("export default   42 ", &none), "  exports['default'] = 42;\n");
}

#[test]
fn register_module_replaces() {
    let mut esm = EsModules::default();
    esm.register_module("a", "1");
    esm.register_module("a", "2");
    let out = esm.transform_module("a", "x");
    assert!(out.contains("__registerModule('a'"));
}
