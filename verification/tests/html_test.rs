use iris::layout::dom::NodeType;
use iris::layout::html::{dom_from_items, parse_html, HtmlItem, HtmlKind};

#[test]
fn test_parse_simple_html() {
    let html = r#"<div>Hello</div>"#;
    let dom = parse_html(html);
    
    assert!(dom.root().is_element());
}

#[test]
fn test_parse_with_attributes() {
    let html = r#"<div class="container" id="main">Content</div>"#;
    let dom = parse_html(html);
    
    // html5ever 会自动添加 <html> 和 <body>，所以需要查询
    let div = dom.query_selector("#main");
    assert!(div.is_some());
    assert_eq!(div.unwrap().class(), Some(&"container".to_string()));
}

#[test]
fn test_parse_nested_elements() {
    let html = r#"
        <div>
            <p>Paragraph 1</p>
            <p>Paragraph 2</p>
        </div>
    "#;
    let dom = parse_html(html);
    
    assert!(dom.root().is_element());
    assert_eq!(dom.root().children.len(), 2);
}

#[test]
fn test_parse_complex_html() {
    let html = r#"
        <!DOCTYPE html>
        <html>
            <head>
                <title>Test</title>
            </head>
            <body>
                <div class="container">
                    <h1>Title</h1>
                    <p>Content</p>
                </div>
            </body>
        </html>
    "#;
    let dom = parse_html(html);
    
    // 应该能正确解析
    assert!(dom.root().is_element());
}

#[test]
fn test_query_after_parse() {
    let html = r#"
        <div>
            <p id="test">Hello</p>
        </div>
    "#;
    let dom = parse_html(html);
    
    let found = dom.query_selector("#test");
    assert!(found.is_some());
    // 文本节点可能被包裹，所以检查包含关系
    let text = found.unwrap().collect_text();
    assert!(text.contains("Hello"));
}


fn item(kind: HtmlKind, parent: usize, text: &str, attrs: &[(&str, &str)]) -> HtmlItem {
    HtmlItem {
        kind,
        parent,
        text: text.to_string(),
        attrs: attrs.iter().map(|(k, v)| (k.to_string(), v.to_string())).collect(),
    }
}

#[test]
fn dom_from_items_builds_first_child_of_document() {
    let items = vec![
        item(HtmlKind::Document, usize::MAX, "", &[]),
        item(HtmlKind::Element, 0, "DIV", &[("id", "a"), ("id", "b")]),
        item(HtmlKind::Text, 1, "hi", &[]),
        item(HtmlKind::Comment, 1, "note", &[]),
        item(HtmlKind::Element, 0, "span", &[]),
    ];
    let tree = dom_from_items(&items);
    let root = tree.root();
    assert_eq!(root.tag_name(), Some("div"));
    assert_eq!(root.get_attribute("id"), Some(&"b".to_string()));
    assert_eq!(root.children.len(), 2);
    assert!(matches!(&root.children[0].node_type, NodeType::Text(t) if t == "hi"));
    assert!(matches!(&root.children[1].node_type, NodeType::Comment(t) if t == "note"));
    assert_eq!(root.children[0].parent_id, root.id);
}

#[test]
fn dom_from_items_doctype_instruction_and_empty() {
    let items = vec![item(HtmlKind::Document, usize::MAX, "", &[]), item(HtmlKind::Doctype, 0, "", &[])];
    assert_eq!(dom_from_items(&items).root().tag_name(), Some("!doctype"));
    let items = vec![item(HtmlKind::Document, usize::MAX, "", &[]), item(HtmlKind::Instruction, 0, "", &[])];
    assert!(matches!(&dom_from_items(&items).root().node_type, NodeType::Text(t) if t.is_empty()));
    assert_eq!(dom_from_items(&Vec::new()).root().tag_name(), Some("html"));
    let lone = vec![item(HtmlKind::Document, usize::MAX, "", &[])];
    assert_eq!(dom_from_items(&lone).root().tag_name(), Some("html"));
}

#[test]
fn parse_html_text_and_doctype() {
    let dom = parse_html("<!DOCTYPE html><p>x</p>");
    assert_eq!(dom.root().tag_name(), Some("!doctype"));
    let dom = parse_html("<p class=\"k\">Hello <b>World</b></p>");
    let p = dom.query_selector(".k").unwrap();
    assert_eq!(p.collect_text(), "Hello World");
}
