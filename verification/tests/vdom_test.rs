use iris::layout::dom::{DOMNode, NodeType};
use iris::layout::vdom::{Patch, VNode, VTree};
use iris::strmap::StrMap;
#[test]
fn test_vnode_creation() {
    // 测试虚拟节点创建
    let vtree = VTree::new(VNode::element("div")
        .attr("class", "container")
        .child(VNode::text("Hello"))
        .child(VNode::element("span").child(VNode::text("World"))));

    assert_eq!(vtree.root.tag_name(), Some("div"));
}

#[test]
fn test_vtree_from_dom_node() {
    // 测试从 DOMNode 创建虚拟 DOM
    let mut dom_node = DOMNode::new_element("div");
    dom_node.set_attribute("class", "container");
    
    let child = DOMNode::new_text("Hello");
    dom_node.children.push(child);

    let vtree = VTree::from_dom_node(&dom_node);

    assert_eq!(vtree.root.tag_name(), Some("div"));
}

#[test]
fn test_vtree_to_dom_node() {
    // 测试虚拟 DOM 转换为 DOMNode
    let vtree = VTree::new(VNode::element("div")
        .attr("id", "app")
        .child(VNode::text("Test")));

    let dom_node = vtree.to_dom_node();

    assert!(matches!(dom_node.node_type, NodeType::Element(ref tag) if tag == "div"));
    assert_eq!(dom_node.get_attribute("id"), Some(&"app".to_string()));
    assert_eq!(dom_node.children.len(), 1);
}

#[test]
fn test_diff_text_change() {
    // 测试文本变化的 diff
    let old_tree = VTree::new(VNode::text("old"));
    let new_tree = VTree::new(VNode::text("new"));

    let patches = new_tree.diff(&old_tree);

    assert_eq!(patches.len(), 1);
    assert!(matches!(&patches[0], Patch::UpdateText { text, .. } if text == "new"));
}

#[test]
fn test_diff_element_replace() {
    // 测试元素替换的 diff
    let old_tree = VTree::new(VNode::element("div"));
    let new_tree = VTree::new(VNode::element("span"));

    let patches = new_tree.diff(&old_tree);

    assert_eq!(patches.len(), 1);
    assert!(matches!(&patches[0], Patch::Replace { .. }));
}

#[test]
fn test_diff_attr_update() {
    // 测试属性更新的 diff
    let old_tree = VTree::new(VNode::element("div").attr("class", "old"));
    let new_tree = VTree::new(VNode::element("div").attr("class", "new").attr("id", "app"));

    let patches = new_tree.diff(&old_tree);

    assert_eq!(patches.len(), 1);
    if let Patch::UpdateAttrs { added, removed, .. } = &patches[0] {
        assert_eq!(added.get("class"), Some(&"new".to_string()));
        assert_eq!(added.get("id"), Some(&"app".to_string()));
        // class 只是更新，不在 removed 中
        assert!(removed.is_empty());
    } else {
        panic!("Expected UpdateAttrs patch");
    }
}

#[test]
fn test_diff_children_insert() {
    // 测试子节点插入的 diff
    let old_tree = VTree::new(VNode::element("div")
        .child(VNode::text("first")));
    let new_tree = VTree::new(VNode::element("div")
        .child(VNode::text("first"))
        .child(VNode::text("second")));

    let patches = new_tree.diff(&old_tree);

    assert_eq!(patches.len(), 1);
    assert!(matches!(&patches[0], Patch::Insert { index: 1, .. }));
}

#[test]
fn test_diff_children_remove() {
    // 测试子节点删除的 diff
    let old_tree = VTree::new(VNode::element("div")
        .child(VNode::text("first"))
        .child(VNode::text("second")));
    let new_tree = VTree::new(VNode::element("div")
        .child(VNode::text("first")));

    let patches = new_tree.diff(&old_tree);

    assert_eq!(patches.len(), 1);
    assert!(matches!(&patches[0], Patch::Remove { index: 1, .. }));
}

#[test]
fn test_apply_patches_insert() {
    // 测试应用插入补丁
    let vtree = VTree::new(VNode::element("div"));
    let mut dom_node = DOMNode::new_element("div");

    let patches = vec![Patch::Insert {
        parent_path: vec![],
        index: 0,
        node: VNode::text("Hello"),
    }];

    vtree.apply_patches(&mut dom_node, &patches);

    assert_eq!(dom_node.children.len(), 1);
    assert!(matches!(&dom_node.children[0].node_type, NodeType::Text(text) if text == "Hello"));
}

#[test]
fn test_apply_patches_update_attrs() {
    // 测试应用属性更新补丁
    let vtree = VTree::new(VNode::element("div"));
    let mut dom_node = DOMNode::new_element("div");
    dom_node.set_attribute("class", "old");

    let mut added = StrMap::new();
    added.insert("class", "new".to_string());
    added.insert("id", "app".to_string());

    let patches = vec![Patch::UpdateAttrs {
        path: vec![],
        added,
        removed: vec!["class".to_string()],
    }];

    vtree.apply_patches(&mut dom_node, &patches);

    assert_eq!(dom_node.get_attribute("class"), Some(&"new".to_string()));
    assert_eq!(dom_node.get_attribute("id"), Some(&"app".to_string()));
}

#[test]
fn test_vtree_roundtrip() {
    // 测试 DOM -> VTree -> DOM 的往返转换
    let mut original = DOMNode::new_element("div");
    original.set_attribute("class", "container");
    
    let child = DOMNode::new_text("Hello World");
    original.children.push(child);

    let vtree = VTree::from_dom_node(&original);
    let restored = vtree.to_dom_node();

    assert_eq!(restored.tag_name(), original.tag_name());
    assert_eq!(restored.get_attribute("class"), original.get_attribute("class"));
    assert_eq!(restored.children.len(), original.children.len());
}

#[test]
fn root_patches_rebuild_the_new_tree() {
    let old = VTree::new(VNode::text("before"));
    let new = VTree::new(VNode::text("after"));
    let mut dom = old.to_dom_node();
    let patches = new.diff(&old);
    new.apply_patches(&mut dom, &patches);
    assert!(matches!(&VTree::from_dom_node(&dom).root, VNode::Text(t) if t == "after"));

    let old = VTree::new(VNode::element("div").child(VNode::text("x")));
    let new = VTree::new(VNode::element("span").attr("id", "s"));
    let mut dom = old.to_dom_node();
    let patches = new.diff(&old);
    new.apply_patches(&mut dom, &patches);
    match &VTree::from_dom_node(&dom).root {
        VNode::Element(e) => {
            assert_eq!(e.tag, "span");
            assert_eq!(e.attrs.get("id"), Some(&"s".to_string()));
            assert!(e.children.is_empty());
        }
        _ => panic!("Expected Element node"),
    }
}

#[test]
fn nested_patches_rebuild_the_new_tree() {
    let old = VTree::new(
        VNode::element("div")
            .attr("class", "a")
            .attr("id", "x")
            .child(VNode::element("p").child(VNode::text("one")))
            .child(VNode::text("two"))
            .child(VNode::element("span")),
    );
    let new = VTree::new(
        VNode::element("div")
            .attr("class", "b")
            .child(VNode::element("p").child(VNode::text("uno")).child(VNode::text("extra")))
            .child(VNode::element("em")),
    );
    let mut dom = old.to_dom_node();
    let patches = new.diff(&old);
    new.apply_patches(&mut dom, &patches);
    let back = VTree::from_dom_node(&dom).root;
    match &back {
        VNode::Element(e) => {
            assert_eq!(e.tag, "div");
            assert_eq!(e.attrs.get("class"), Some(&"b".to_string()));
            assert!(e.attrs.get("id").is_none());
            assert_eq!(e.children.len(), 2);
            match &e.children[0] {
                VNode::Element(p) => {
                    assert_eq!(p.tag, "p");
                    assert_eq!(p.children.len(), 2);
                    assert!(matches!(&p.children[0], VNode::Text(t) if t == "uno"));
                    assert!(matches!(&p.children[1], VNode::Text(t) if t == "extra"));
                }
                _ => panic!("Expected Element node"),
            }
            assert!(matches!(&e.children[1], VNode::Element(x) if x.tag == "em"));
        }
        _ => panic!("Expected Element node"),
    }
}
