use iris::js::vue::{build_vtree_checked, build_vtree_from_json, build_vtree_from_map, VNodeEntry, VNodeRegistry};
use iris::layout::vdom::VNode;
use iris::strmap::StrMap;

#[test]
fn test_vnode_registry_build_tree() {
    let mut registry = VNodeRegistry::new();

    let text_id = registry.create_text("Hello");
    let child_id = registry.create_element("span", None, vec![text_id]);

    let mut props = StrMap::new();
    props.set_str("class", "container");
    let root_id = registry.create_element("div", Some(props), vec![child_id]);

    let vtree = registry.build_tree(root_id);
    assert!(vtree.is_some());

    let vtree = vtree.unwrap();

    match &vtree.root {
        VNode::Element(elem) => {
            assert_eq!(elem.tag, "div");
            assert_eq!(elem.children.len(), 1);

            if let VNode::Element(child_elem) = &elem.children[0] {
                assert_eq!(child_elem.tag, "span");
                assert_eq!(child_elem.children.len(), 1);

                if let VNode::Text(content) = &child_elem.children[0] {
                    assert_eq!(content, "Hello");
                } else {
                    panic!("Expected Text node");
                }
            } else {
                panic!("Expected Element node");
            }
        }
        _ => panic!("Expected Element node"),
    }
}

#[test]
fn registry_ids_and_missing_children() {
    let mut r = VNodeRegistry::new();
    let a = r.create_comment("c");
    assert_eq!(a, 1);
    let b = r.create_element("p", None, vec![a, a, 99]);
    assert_eq!(b, 2);
    let t = r.build_tree(b).unwrap();
    match &t.root {
        VNode::Element(e) => assert_eq!(e.children.len(), 1),
        _ => panic!("Expected Element node"),
    }
    assert!(r.build_tree(a).is_none());
    assert!(r.build_tree(b).is_none());
}

fn entry(t: &str, tag: Option<&str>, content: Option<&str>, props: Option<Vec<(&str, Option<&str>)>>, kids: Option<Vec<Option<&str>>>) -> VNodeEntry {
    VNodeEntry {
        node_type: Some(t.to_string()),
        tag: tag.map(|s| s.to_string()),
        content: content.map(|s| s.to_string()),
        props: props.map(|v| v.into_iter().map(|(k, x)| (k.to_string(), x.map(|s| s.to_string()))).collect()),
        children: kids.map(|v| v.into_iter().map(|x| x.map(|s| s.to_string())).collect()),
    }
}

#[test]
fn tree_from_map() {
    let mut m = StrMap::new();
    m.insert("1", entry("element", Some("div"), None, Some(vec![("class", Some("container")), ("n", None)]), Some(vec![Some("2"), Some("x"), None, Some("3")])));
    m.insert("2", entry("text", None, Some("Hello, Iris!"), None, None));
    m.insert("3", entry("comment", None, Some("note"), None, None));
    let t = build_vtree_from_map(&m, 1).unwrap();
    match &t.root {
        VNode::Element(e) => {
            assert_eq!(e.tag, "div");
            assert_eq!(e.attrs.get("class"), Some(&"container".to_string()));
            assert!(e.attrs.get("n").is_none());
            assert_eq!(e.children.len(), 2);
            assert!(matches!(&e.children[0], VNode::Text(s) if s == "Hello, Iris!"));
            assert!(matches!(&e.children[1], VNode::Comment(s) if s == "note"));
        }
        _ => panic!("Expected Element node"),
    }
}

#[test]
fn tree_from_map_errors() {
    let mut m = StrMap::new();
    m.insert("1", entry("element", Some("div"), None, None, Some(vec![Some("7")])));
    assert_eq!(build_vtree_from_map(&m, 1).unwrap_err(), "VNode 7 not found in map");
    assert_eq!(build_vtree_from_map(&m, 5).unwrap_err(), "VNode 5 not found in map");
    let mut m2 = StrMap::new();
    m2.insert("1", entry("widget", None, None, None, None));
    assert_eq!(build_vtree_from_map(&m2, 1).unwrap_err(), "Unknown VNode type: widget");
    let mut m3 = StrMap::new();
    m3.insert("1", entry("element", None, None, None, None));
    assert_eq!(build_vtree_from_map(&m3, 1).unwrap_err(), "Element VNode missing tag");
    let mut m4 = StrMap::new();
    m4.insert("1", entry("text", None, None, None, None));
    assert_eq!(build_vtree_from_map(&m4, 1).unwrap_err(), "Text VNode missing content");
}

#[test]
fn checked_tree_refuses_circles() {
    let mut m = StrMap::new();
    m.insert("1", entry("element", Some("div"), None, None, Some(vec![Some("2")])));
    m.insert("2", entry("element", Some("p"), None, None, Some(vec![Some("3")])));
    m.insert("3", entry("text", None, Some("deep"), None, None));
    let t = build_vtree_checked(&m, 1).unwrap().unwrap();
    match &t.root {
        VNode::Element(e) => {
            assert_eq!(e.tag, "div");
            assert!(matches!(&e.children[0], VNode::Element(p) if p.tag == "p" && p.children.len() == 1));
        }
        _ => panic!("Expected Element node"),
    }
    assert_eq!(build_vtree_checked(&m, 9).unwrap().unwrap_err(), "VNode 9 not found in map");
    let mut c = StrMap::new();
    c.insert("1", entry("element", Some("div"), None, None, Some(vec![Some("2")])));
    c.insert("2", entry("element", Some("span"), None, None, Some(vec![Some("1")])));
    assert!(build_vtree_checked(&c, 1).is_none());
}

#[test]
fn tree_from_json_text() {
    let json = r#"{"1":{"type":"element","tag":"div","props":{"class":"c","n":1},"children":["2",3,"3"]},
                   "2":{"type":"text","content":"hi"},"3":{"type":"comment","content":"note"}}"#;
    let t = build_vtree_from_json(json, 1).unwrap().unwrap();
    match &t.root {
        VNode::Element(e) => {
            assert_eq!(e.tag, "div");
            assert_eq!(e.attrs.get("class"), Some(&"c".to_string()));
            assert!(e.attrs.get("n").is_none());
            assert_eq!(e.children.len(), 2);
            assert!(matches!(&e.children[0], VNode::Text(s) if s == "hi"));
            assert!(matches!(&e.children[1], VNode::Comment(s) if s == "note"));
        }
        _ => panic!("Expected Element node"),
    }
    assert_eq!(build_vtree_from_json(json, 7).unwrap().unwrap_err(), "VNode 7 not found in map");
    let e = build_vtree_from_json("[1]", 1).unwrap().unwrap_err();
    assert!(e.starts_with("Failed to parse vnode map: "));
    let cyc = r#"{"1":{"type":"element","tag":"a","children":["1"]}}"#;
    assert!(build_vtree_from_json(cyc, 1).is_none());
}
