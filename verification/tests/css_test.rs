use iris::layout::css::{parse_stylesheet, Selector, SelectorType};
#[test]
fn test_parse_simple_css() {
    let css = r#"
        .container {
            padding: 20px;
            background-color: white;
        }
    "#;
    
    let stylesheet = parse_stylesheet(css);
    assert_eq!(stylesheet.rules.len(), 1);
    assert_eq!(stylesheet.rules[0].selector.text, ".container");
    assert_eq!(stylesheet.rules[0].declarations.len(), 2);
}

#[test]
fn test_parse_multiple_rules() {
    let css = r#"
        .class1 { color: red; }
        #id1 { font-size: 16px; }
        div { margin: 0; }
    "#;
    
    let stylesheet = parse_stylesheet(css);
    assert_eq!(stylesheet.rules.len(), 3);
}

#[test]
fn test_selector_types() {
    let class_sel = Selector::new(".container");
    let id_sel = Selector::new("#main");
    let tag_sel = Selector::new("div");
    
    assert!(class_sel.is_class());
    assert!(id_sel.is_id());
    assert!(tag_sel.is_tag());
}

#[test]
fn test_parse_with_comments() {
    let css = r#"
        /* This is a comment */
        .container {
            padding: 20px; /* inline comment */
        }
    "#;
    
    let stylesheet = parse_stylesheet(css);
    assert_eq!(stylesheet.rules.len(), 1);
}

#[test]
fn test_attribute_selector() {
    let sel1 = Selector::new("[data-type]");
    let sel2 = Selector::new("[data-type=button]");
    let sel3 = Selector::new("[href=\"https://example.com\"]");
    
    assert!(sel1.is_compound() || matches!(sel1.selector_type, SelectorType::Attribute { .. }));
    assert!(sel2.is_compound() || matches!(sel2.selector_type, SelectorType::Attribute { .. }));
    assert!(sel3.is_compound() || matches!(sel3.selector_type, SelectorType::Attribute { .. }));
}

#[test]
fn test_compound_selector() {
    let sel = Selector::new("div.container");
    assert!(sel.is_compound());
    
    let sel2 = Selector::new("div#main.container");
    assert!(sel2.is_compound());
}

#[test]
fn test_universal_selector() {
    let sel = Selector::new("*");
    assert!(matches!(sel.selector_type, SelectorType::Universal));
}

#[test]
fn test_selector_type_parsing() {
    
    let id_sel = Selector::new("#main");
    assert!(matches!(id_sel.selector_type, SelectorType::Id(s) if s == "main"));
    
    let class_sel = Selector::new(".container");
    assert!(matches!(class_sel.selector_type, SelectorType::Class(s) if s == "container"));
    
    let tag_sel = Selector::new("div");
    assert!(matches!(tag_sel.selector_type, SelectorType::Tag(s) if s == "div"));
}
