use iris::layout::dom::{DOMNode, DOMTree, NodeType};

#[test]
fn test_create_element() {
    let div = DOMNode::new_element("div");
    assert!(div.is_element());
    assert_eq!(div.tag_name(), Some("div"));
}

#[test]
fn test_create_text() {
    let text = DOMNode::new_text("Hello");
    assert!(text.is_text());
    assert_eq!(text.text_content(), Some("Hello"));
}

#[test]
fn test_set_attribute() {
    let mut div = DOMNode::new_element("div");
    div.set_attribute("class", "container");
    div.set_attribute("id", "main");
    
    assert_eq!(div.class(), Some(&"container".to_string()));
    assert_eq!(div.id_attr(), Some(&"main".to_string()));
}

#[test]
fn test_append_child() {
    let mut parent = DOMNode::new_element("div");
    let child = DOMNode::new_element("p");
    let parent_id = parent.id;
    
    parent.append_child(child);
    
    assert_eq!(parent.children.len(), 1);
    assert_eq!(parent.children[0].parent_id, parent_id);
}

#[test]
fn test_collect_text() {
    let mut div = DOMNode::new_element("div");
    div.append_child(DOMNode::new_text("Hello "));
    
    let mut p = DOMNode::new_element("p");
    p.append_child(DOMNode::new_text("World"));
    div.append_child(p);
    
    assert_eq!(div.collect_text(), "Hello World");
}

#[test]
fn test_query_selector_by_id() {
    let mut root = DOMNode::new_element("div");
    let mut child = DOMNode::new_element("p");
    child.set_attribute("id", "test");
    root.append_child(child);
    
    let tree = DOMTree::new(root);
    let found = tree.query_selector("#test");
    
    assert!(found.is_some());
    assert_eq!(found.unwrap().tag_name(), Some("p"));
}

#[test]
fn test_query_selector_by_class() {
    let mut root = DOMNode::new_element("div");
    let mut child = DOMNode::new_element("p");
    child.set_attribute("class", "highlight");
    root.append_child(child);
    
    let tree = DOMTree::new(root);
    let found = tree.query_selector(".highlight");
    
    assert!(found.is_some());
}

#[test]
fn test_computed_styles_with_style_attribute() {
    // 测试有 style 属性的元素
    let mut div = DOMNode::new_element("div");
    div.set_attribute("style", "width: 100px; height: 200px; color: red;");
    
    let styles = div.computed_styles();
    assert!(styles.is_some());
    
    let styles = styles.unwrap();
    assert_eq!(styles.get("width"), Some(&"100px".to_string()));
    assert_eq!(styles.get("height"), Some(&"200px".to_string()));
    assert_eq!(styles.get("color"), Some(&"red".to_string()));
}

#[test]
fn test_computed_styles_without_style_attribute() {
    // 测试没有 style 属性的元素
    let div = DOMNode::new_element("div");
    
    let styles = div.computed_styles();
    assert!(styles.is_none());
}

#[test]
fn test_computed_styles_text_node() {
    // 测试文本节点
    let text = DOMNode::new_text("Hello");
    
    let styles = text.computed_styles();
    assert!(styles.is_none());
}

#[test]
fn test_computed_styles_complex_css() {
    // 测试复杂的 CSS 样式
    let mut div = DOMNode::new_element("div");
    div.set_attribute("style", "display: flex; flex-wrap: wrap; gap: 10px; min-height: 50px; max-width: 500px;");
    
    let styles = div.computed_styles().unwrap();
    assert_eq!(styles.get("display"), Some(&"flex".to_string()));
    assert_eq!(styles.get("flex-wrap"), Some(&"wrap".to_string()));
    assert_eq!(styles.get("gap"), Some(&"10px".to_string()));
    assert_eq!(styles.get("min-height"), Some(&"50px".to_string()));
    assert_eq!(styles.get("max-width"), Some(&"500px".to_string()));
}

#[test]
fn test_remove_child() {
    // 测试移除子节点
    let mut parent = DOMNode::new_element("div");
    let child1 = DOMNode::new_element("span");
    let child2 = DOMNode::new_element("p");
    parent.append_child(child1);
    parent.append_child(child2);
    
    assert_eq!(parent.children.len(), 2);
    
    // 移除第一个子节点
    let removed = parent.remove_child(0);
    assert!(removed.is_some());
    assert_eq!(parent.children.len(), 1);
    
    // 移除不存在的索引
    let removed = parent.remove_child(5);
    assert!(removed.is_none());
}

#[test]
fn test_insert_before() {
    // 测试在指定位置前插入节点
    let mut parent = DOMNode::new_element("div");
    let child1 = DOMNode::new_element("span");
    parent.append_child(child1);
    
    let child2 = DOMNode::new_element("p");
    let success = parent.insert_before(child2, 0);
    
    assert!(success);
    assert_eq!(parent.children.len(), 2);
    
    // 验证插入位置正确（p 应该在 span 前面）
    assert!(matches!(&parent.children[0].node_type, NodeType::Element(e) if e == "p"));
    assert!(matches!(&parent.children[1].node_type, NodeType::Element(e) if e == "span"));
}

#[test]
fn test_replace_child() {
    // 测试替换子节点
    let mut parent = DOMNode::new_element("div");
    let old_child = DOMNode::new_element("span");
    parent.append_child(old_child);
    
    let new_child = DOMNode::new_element("p");
    let replaced = parent.replace_child(new_child, 0);
    
    assert!(replaced.is_some());
    assert_eq!(parent.children.len(), 1);
    assert!(matches!(&parent.children[0].node_type, NodeType::Element(e) if e == "p"));
    
    // 测试无效索引
    let new_child2 = DOMNode::new_element("a");
    let replaced = parent.replace_child(new_child2, 5);
    assert!(replaced.is_none());
}

#[test]
fn test_clone_node_shallow() {
    // 测试浅克隆
    let mut parent = DOMNode::new_element("div");
    parent.set_attribute("class", "container");
    let child = DOMNode::new_element("span");
    parent.append_child(child);
    
    let cloned = parent.clone_node(false);
    
    // 验证克隆后的节点属性相同，但 ID 不同
    assert_eq!(cloned.tag_name(), parent.tag_name());
    assert_eq!(cloned.get_attribute("class"), parent.get_attribute("class"));
    assert_ne!(cloned.id, parent.id); // ID 应该不同
    
    // 浅克隆不应该包含子节点
    assert_eq!(cloned.children.len(), 0);
}

#[test]
fn test_clone_node_deep() {
    // 测试深克隆
    let mut parent = DOMNode::new_element("div");
    parent.set_attribute("class", "container");
    let child = DOMNode::new_element("span");
    parent.append_child(child);
    
    let cloned = parent.clone_node(true);
    
    // 深克隆应该包含子节点
    assert_eq!(cloned.children.len(), 1);
    assert_eq!(cloned.children[0].tag_name(), Some("span"));
    
    // 克隆的子节点 ID 也应该不同
    assert_ne!(cloned.children[0].id, parent.children[0].id);
    
    // 验证克隆后的 parent_id 关系正确
    assert_eq!(cloned.children[0].parent_id, cloned.id);
}

#[test]
fn test_insert_before_at_end() {
    // 测试 insert_before 在末尾插入（边界情况）
    let mut parent = DOMNode::new_element("div");
    let child1 = DOMNode::new_element("span");
    let child2 = DOMNode::new_element("p");
    parent.append_child(child1);
    parent.append_child(child2);
    
    // 在末尾插入（索引 == children.len()）
    let child3 = DOMNode::new_element("a");
    let success = parent.insert_before(child3, 2);
    
    assert!(success);
    assert_eq!(parent.children.len(), 3);
    
    // 验证插入位置（应该在最后）
    assert!(matches!(&parent.children[2].node_type, NodeType::Element(e) if e == "a"));
}

#[test]
fn test_append_multiple() {
    // 测试 append 方法（现代 API）
    let mut parent = DOMNode::new_element("div");
    let child1 = DOMNode::new_element("span");
    let child2 = DOMNode::new_element("p");
    let child3 = DOMNode::new_element("a");
    
    parent.append(vec![child1, child2, child3]);
    
    assert_eq!(parent.children.len(), 3);
}

#[test]
fn test_prepend_multiple() {
    // 测试 prepend 方法（现代 API）
    let mut parent = DOMNode::new_element("div");
    let existing = DOMNode::new_element("span");
    parent.append_child(existing);
    
    let child1 = DOMNode::new_element("p");
    let child2 = DOMNode::new_element("a");
    
    parent.prepend(vec![child1, child2]);
    
    assert_eq!(parent.children.len(), 3);
    // 验证顺序：p, a, span
    assert!(matches!(&parent.children[0].node_type, NodeType::Element(e) if e == "p"));
    assert!(matches!(&parent.children[1].node_type, NodeType::Element(e) if e == "a"));
    assert!(matches!(&parent.children[2].node_type, NodeType::Element(e) if e == "span"));
}

#[test]
fn test_contains() {
    // 测试 contains 方法
    let mut parent = DOMNode::new_element("div");
    let mut child = DOMNode::new_element("span");
    let grandchild = DOMNode::new_element("p");
    child.append_child(grandchild);
    parent.append_child(child);
    
    // 测试包含自己
    assert!(parent.contains(parent.id));
    
    // 测试包含子节点
    assert!(parent.contains(parent.children[0].id));
    
    // 测试包含孙节点
    assert!(parent.contains(parent.children[0].children[0].id));
    
    // 测试不包含的节点
    let unrelated = DOMNode::new_element("div");
    assert!(!parent.contains(unrelated.id));
}

#[test]
fn test_child_count_and_has_children() {
    // 测试 child_count 和 has_children 方法
    let mut parent = DOMNode::new_element("div");
    
    assert_eq!(parent.child_count(), 0);
    assert!(!parent.has_children());
    
    let child = DOMNode::new_element("span");
    parent.append_child(child);
    
    assert_eq!(parent.child_count(), 1);
    assert!(parent.has_children());
}

#[test]
fn test_first_and_last_child_mut() {
    // 测试 first_child_mut 和 last_child_mut
    let mut parent = DOMNode::new_element("div");
    let child1 = DOMNode::new_element("span");
    let child2 = DOMNode::new_element("p");
    parent.append_child(child1);
    parent.append_child(child2);
    
    // 测试 first_child_mut
    if let Some(first) = parent.first_child_mut() {
        assert!(matches!(&first.node_type, NodeType::Element(e) if e == "span"));
    }
    
    // 测试 last_child_mut
    if let Some(last) = parent.last_child_mut() {
        assert!(matches!(&last.node_type, NodeType::Element(e) if e == "p"));
    }
    
    // 空节点测试
    let mut empty = DOMNode::new_element("div");
    assert!(empty.first_child_mut().is_none());
    assert!(empty.last_child_mut().is_none());
}

#[test]
fn clone_ids_do_not_occur_in_the_original() {
    let mut parent = DOMNode::new_element("div");
    let mut child = DOMNode::new_element("p");
    child.append_child(DOMNode::new_text("hi"));
    parent.append_child(child);
    parent.append_child(DOMNode::new_comment("c"));
    let shallow = parent.clone_node(false);
    assert!(!parent.contains(shallow.id));
    let deep = parent.clone_node(true);
    assert!(!parent.contains(deep.id));
    for c in &deep.children {
        assert!(!parent.contains(c.id));
        assert_eq!(c.parent_id, deep.id);
        for g in &c.children {
            assert!(!parent.contains(g.id));
        }
    }
}
