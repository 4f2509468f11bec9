use iris::layout::dom::{DOMNode, NodeType};
use iris::layout::domtree::DOMTree;
#[test]
fn test_dom_tree_creation() {
    // 测试 DOM 树创建
    let root = DOMNode::new_element("div");
    let tree = DOMTree::new(root);

    assert_eq!(tree.root.tag_name(), Some("div"));
}

#[test]
fn test_insert_after() {
    // 测试在节点后插入
    let mut root = DOMNode::new_element("div");
    let child1 = DOMNode::new_element("span");
    root.append_child(child1);

    let mut tree = DOMTree::new(root);
    let child1_id = tree.root.children[0].id;
    let child2 = DOMNode::new_element("p");

    let success = tree.insert_after(child1_id, child2);

    assert!(success);
    assert_eq!(tree.root.children.len(), 2);
    assert!(matches!(&tree.root.children[1].node_type, NodeType::Element(tag) if tag == "p"));
}

#[test]
fn test_insert_before_node() {
    // 测试在节点前插入
    let mut root = DOMNode::new_element("div");
    let child1 = DOMNode::new_element("span");
    root.append_child(child1);

    let mut tree = DOMTree::new(root);
    let child1_id = tree.root.children[0].id;
    let child2 = DOMNode::new_element("p");

    let success = tree.insert_before_node(child1_id, child2);

    assert!(success);
    assert_eq!(tree.root.children.len(), 2);
    assert!(matches!(&tree.root.children[0].node_type, NodeType::Element(tag) if tag == "p"));
}

#[test]
fn test_remove_node() {
    // 测试移除节点
    let mut root = DOMNode::new_element("div");
    let child = DOMNode::new_element("span");
    root.append_child(child);

    let mut tree = DOMTree::new(root);
    let child_id = tree.root.children[0].id;

    let removed = tree.remove_node(child_id);

    assert!(removed.is_some());
    assert_eq!(tree.root.children.len(), 0);
}

#[test]
fn test_compare_document_position_same() {
    // 测试同一节点
    let root = DOMNode::new_element("div");
    let tree = DOMTree::new(root);
    let root_id = tree.root.id;

    assert_eq!(tree.compare_document_position(root_id, root_id), 0);
}

#[test]
fn test_compare_document_position_contains() {
    // 测试包含关系
    let mut root = DOMNode::new_element("div");
    let child = DOMNode::new_element("span");
    root.append_child(child);

    let tree = DOMTree::new(root);
    let root_id = tree.root.id;
    let child_id = tree.root.children[0].id;

    assert_eq!(tree.compare_document_position(root_id, child_id), 4);
}

#[test]
fn test_compare_document_position_before() {
    // 测试前后关系
    let mut root = DOMNode::new_element("div");
    let child1 = DOMNode::new_element("span");
    let child2 = DOMNode::new_element("p");
    root.append_child(child1);
    root.append_child(child2);

    let tree = DOMTree::new(root);
    let child1_id = tree.root.children[0].id;
    let child2_id = tree.root.children[1].id;

    assert_eq!(tree.compare_document_position(child1_id, child2_id), 1);
    assert_eq!(tree.compare_document_position(child2_id, child1_id), 2);
}

#[test]
fn test_get_depth() {
    // 测试获取深度
    let mut root = DOMNode::new_element("div");
    let child = DOMNode::new_element("span");
    root.append_child(child);

    let tree = DOMTree::new(root);
    let root_id = tree.root.id;
    let child_id = tree.root.children[0].id;

    assert_eq!(tree.get_depth(root_id), Some(0));
    assert_eq!(tree.get_depth(child_id), Some(1));
}

#[test]
fn test_get_ancestors() {
    // 测试获取祖先节点
    let mut root = DOMNode::new_element("div");
    let mut child = DOMNode::new_element("span");
    let grandchild = DOMNode::new_element("p");
    child.append_child(grandchild);
    root.append_child(child);

    let tree = DOMTree::new(root);
    let grandchild_id = tree.root.children[0].children[0].id;

    let ancestors = tree.get_ancestors(grandchild_id);
    assert_eq!(ancestors.len(), 2);
    assert!(ancestors.contains(&tree.root.id));
}

#[test]
fn test_get_sibling_count_and_index() {
    // 测试兄弟节点信息
    let mut root = DOMNode::new_element("div");
    let child1 = DOMNode::new_element("span");
    let child2 = DOMNode::new_element("p");
    root.append_child(child1);
    root.append_child(child2);

    let tree = DOMTree::new(root);
    let child1_id = tree.root.children[0].id;
    let child2_id = tree.root.children[1].id;

    assert_eq!(tree.get_sibling_count(child1_id), 2);
    assert_eq!(tree.get_sibling_index(child1_id), Some(0));
    assert_eq!(tree.get_sibling_index(child2_id), Some(1));
}

#[test]
fn test_node_index_maintenance() {
    // 测试索引维护
    let mut root = DOMNode::new_element("div");
    let child = DOMNode::new_element("span");
    root.append_child(child);

    let mut tree = DOMTree::new(root);
    let child_id = tree.root.children[0].id;

    // 验证索引存在
    assert!(tree.node_index.contains_key(&child_id));

    // 移除节点后索引应该更新
    tree.remove_node(child_id);
    assert!(!tree.node_index.contains_key(&child_id));
}
