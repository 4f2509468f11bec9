use iris::layout::style::{compute_styles, matches_selector, selector_specificity};
use iris::layout::css::{parse_stylesheet, Selector};
use iris::layout::dom::DOMNode;
#[test]
fn test_matches_id_selector() {
    let mut node = DOMNode::new_element("div");
    node.set_attribute("id", "main");

    let selector = Selector::new("#main");
    assert!(matches_selector(&node, &selector));

    let selector2 = Selector::new("#other");
    assert!(!matches_selector(&node, &selector2));
}

#[test]
fn test_matches_class_selector() {
    let mut node = DOMNode::new_element("div");
    node.set_attribute("class", "container highlight");

    let selector = Selector::new(".container");
    assert!(matches_selector(&node, &selector));

    let selector2 = Selector::new(".other");
    assert!(!matches_selector(&node, &selector2));
}

#[test]
fn test_matches_tag_selector() {
    let node = DOMNode::new_element("div");

    let selector = Selector::new("div");
    assert!(matches_selector(&node, &selector));

    let selector2 = Selector::new("p");
    assert!(!matches_selector(&node, &selector2));
}

#[test]
fn test_specificity() {
    let id_sel = Selector::new("#main");
    let class_sel = Selector::new(".container");
    let tag_sel = Selector::new("div");

    assert!(selector_specificity(&id_sel) > selector_specificity(&class_sel));
    assert!(selector_specificity(&class_sel) > selector_specificity(&tag_sel));
}

#[test]
fn test_compute_styles() {
    let mut div = DOMNode::new_element("div");
    div.set_attribute("class", "container");

    let css = ".container { padding: 20px; color: red; }";
    let stylesheet = parse_stylesheet(css);

    let computed = compute_styles(&div, &stylesheet, None);

    assert_eq!(computed.get("padding"), Some(&"20px".to_string()));
    assert_eq!(computed.get("color"), Some(&"red".to_string()));
}

#[test]
fn test_style_inheritance() {
    let mut parent = DOMNode::new_element("div");
    let mut child = DOMNode::new_element("p");
    parent.append_child(child);

    // 父节点有可继承的属性
    let css = "div { color: blue; font-size: 16px; }";
    let stylesheet = parse_stylesheet(css);

    let parent_styles = compute_styles(&parent, &stylesheet, None);
    let child_styles = compute_styles(&parent.children[0], &stylesheet, Some(&parent_styles));

    // 子节点应该继承父节点的样式
    assert_eq!(child_styles.get("color"), Some(&"blue".to_string()));
}
