use iris::sfc_wasm::{clear_cache, compile_sfc, css_or_source, style_blocks, template_to_render, CompileResult};

/// Compiles a component with each SCSS block compiled by `grass`.
fn compile_with_grass(source: &str, filename: &str) -> CompileResult {
    let outcomes: Vec<Result<String, String>> = style_blocks(source)
        .iter()
        .map(|b| {
            if b.lang == "scss" {
                grass::from_string(b.code.clone(), &grass::Options::default()).map_err(|e| e.to_string())
            } else {
                Ok(b.code.clone())
            }
        })
        .collect();
    compile_sfc(source, filename, &outcomes)
}

const HEAD: &str = "function() { const h = arguments[0]; return [\n";

#[test]
fn render_nested_tags_and_text() {
    let r = template_to_render("<div class=\"a\"><p>Hi</p></div>");
    let body = "h('div', class=\"a\"),\n  h('p', ),\n    h('span', {}, 'Hi'),\n    h('p', ),\n      h('div', ),\n";
    assert_eq!(r, format!("{}{}] }}", HEAD, body));
}

#[test]
fn render_self_closing_tag_writes_nothing() {
    assert_eq!(template_to_render("<img src=x />"), format!("{}] }}", HEAD));
    assert_eq!(template_to_render("   "), "");
    assert_eq!(template_to_render("plain text"), format!("{}] }}", HEAD));
}

#[test]
fn compile_injects_render_into_export() {
    let src = "<template><b>x</b></template>\n<script>\nexport default { name: 'A' }\n</script>";
    let out = compile_with_grass(src, "A.vue");
    let render = template_to_render("<b>x</b>");
    assert_eq!(out.script, format!("export default {{\n  render: {}, name: 'A' }}", render));
    assert!(out.styles.is_empty());
    assert!(out.deps.is_empty());
    assert_eq!(out.source_map, None);
}

#[test]
fn compile_appends_export_when_script_exports_nothing() {
    let src = "<script>const a = 1;</script><template><i></i></template>";
    let out = compile_with_grass(src, "B.vue");
    let render = template_to_render("<i></i>");
    assert_eq!(out.script, format!("const a = 1;\n\nconst __sfc__ = {{ render: {} }};\nexport default __sfc__;", render));
}

#[test]
fn compile_template_only_and_neither() {
    let out = compile_with_grass("<template><a></a></template>", "C.vue");
    assert_eq!(out.script, format!("export default {{ render: {} }};", template_to_render("<a></a>")));
    let plain = "no blocks here";
    assert_eq!(compile_with_grass(plain, "D.vue").script, plain);
    let unclosed = "<script>let x = 1;";
    assert_eq!(compile_with_grass(unclosed, "E.vue").script, unclosed);
    clear_cache();
}

#[test]
fn styles_css_and_scss() {
    let src = "<style scoped>\n.a{color:red}\n</style>";
    let out = compile_with_grass(src, "F.vue");
    assert_eq!(out.styles.len(), 1);
    assert_eq!(out.styles[0].code, ".a{color:red}");
    assert!(out.styles[0].scoped);
    assert_eq!(out.styles[0].lang, "css");

    let src2 = "<style lang=\"scss\">$c: red; .b { color: $c; }</style><style>.d{}</style>";
    let out2 = compile_with_grass(src2, "G.vue");
    assert_eq!(out2.styles.len(), 2);
    assert_eq!(out2.styles[0].lang, "scss");
    assert!(!out2.styles[0].scoped);
    assert!(out2.styles[0].code.contains("color: red"));
    assert!(!out2.styles[0].code.contains("$c"));
    assert_eq!(out2.styles[1].lang, "css");
    assert_eq!(out2.styles[1].code, ".d{}");
}

#[test]
fn scss_flag_is_read_from_the_rest_of_the_source() {
    let src = "<style>.a{}</style><style lang='scss'>.b{}</style>";
    let out = compile_with_grass(src, "H.vue");
    assert_eq!(out.styles[0].lang, "scss");
    assert_eq!(out.styles[1].lang, "scss");
}

#[test]
fn css_or_source_falls_back() {
    assert_eq!(css_or_source("x", Ok("y".to_string())), "y");
    assert_eq!(css_or_source("x", Err("bad".to_string())), "x");
}

#[test]
fn scss_outcomes_replace_blocks() {
    let src = "<style lang=\"scss\">a{}</style><style>b{}</style>";
    let out = compile_sfc(src, "I.vue", &vec![Ok("A".to_string()), Ok("ignored".to_string())]);
    assert_eq!(out.styles[0].code, "A");
    assert_eq!(out.styles[1].code, "b{}");
    let out = compile_sfc(src, "I.vue", &vec![Err("bad".to_string())]);
    assert_eq!(out.styles[0].code, "a{}");
    let out = compile_sfc(src, "I.vue", &Vec::new());
    assert_eq!(out.styles[0].code, "a{}");
    let blocks = style_blocks(src);
    assert_eq!(blocks.len(), 2);
    assert_eq!((blocks[0].lang.as_str(), blocks[1].lang.as_str()), ("scss", "css"));
}
