use iris::engine::module_graph::ModuleGraph;

#[test]
fn test_add_module() {
    let mut graph = ModuleGraph::new();
    graph.add_module("A.vue".to_string(), vec!["B.vue".to_string()]);

    assert_eq!(graph.len(), 1);
    assert_eq!(graph.get_dependencies("A.vue").unwrap().len(), 1);
}

#[test]
fn test_detect_no_cycles() {
    let mut graph = ModuleGraph::new();
    graph.add_module("A.vue".to_string(), vec!["B.vue".to_string()]);
    graph.add_module("B.vue".to_string(), vec!["C.vue".to_string()]);
    graph.add_module("C.vue".to_string(), vec![]);

    assert!(graph.detect_cycles().is_none());
}

#[test]
fn test_detect_cycles() {
    let mut graph = ModuleGraph::new();
    graph.add_module("A.vue".to_string(), vec!["B.vue".to_string()]);
    graph.add_module("B.vue".to_string(), vec!["C.vue".to_string()]);
    graph.add_module("C.vue".to_string(), vec!["A.vue".to_string()]);

    let cycles = graph.detect_cycles();
    assert!(cycles.is_some());
}

#[test]
fn test_topological_sort() {
    let mut graph = ModuleGraph::new();
    graph.add_module("A.vue".to_string(), vec!["B.vue".to_string()]);
    graph.add_module("B.vue".to_string(), vec!["C.vue".to_string()]);
    graph.add_module("C.vue".to_string(), vec![]);

    let sorted = graph.topological_sort().unwrap();
    println!("Sorted order: {:?}", sorted);

    let a_pos = sorted.iter().position(|m| m == "A.vue").unwrap();
    let b_pos = sorted.iter().position(|m| m == "B.vue").unwrap();
    let c_pos = sorted.iter().position(|m| m == "C.vue").unwrap();

    assert!(a_pos < b_pos, "A should come before B");
    assert!(b_pos < c_pos, "B should come before C");
}

#[test]
fn test_topological_sort_with_cycle() {
    let mut graph = ModuleGraph::new();
    graph.add_module("A.vue".to_string(), vec!["B.vue".to_string()]);
    graph.add_module("B.vue".to_string(), vec!["A.vue".to_string()]);

    let result = graph.topological_sort();
    assert!(result.is_err());
}

#[test]
fn cycle_found_is_the_cycle() {
    let mut graph = ModuleGraph::new();
    graph.add_module("A.vue".to_string(), vec!["B.vue".to_string()]);
    graph.add_module("B.vue".to_string(), vec!["C.vue".to_string()]);
    graph.add_module("C.vue".to_string(), vec!["A.vue".to_string()]);
    let cycles = graph.detect_cycles().unwrap();
    assert_eq!(cycles.len(), 1);
    assert_eq!(cycles[0], vec!["A.vue".to_string(), "B.vue".to_string(), "C.vue".to_string()]);
    assert_eq!(graph.topological_sort(), Err("Circular dependency detected: C.vue -> A.vue".to_string()));
}

#[test]
fn self_dependency_is_a_cycle() {
    let mut graph = ModuleGraph::new();
    graph.add_module("A.vue".to_string(), vec!["A.vue".to_string()]);
    assert_eq!(graph.detect_cycles(), Some(vec![vec!["A.vue".to_string()]]));
    assert!(graph.topological_sort().is_err());
}

#[test]
fn topological_sort_includes_unlisted_dependencies() {
    let mut graph = ModuleGraph::new();
    graph.add_module("main.js".to_string(), vec!["App.vue".to_string(), "vue".to_string()]);
    graph.add_module("App.vue".to_string(), vec!["vue".to_string()]);
    let sorted = graph.topological_sort().unwrap();
    assert_eq!(sorted, vec!["main.js".to_string(), "App.vue".to_string(), "vue".to_string()]);
}

#[test]
fn empty_graph() {
    let graph = ModuleGraph::default();
    assert!(graph.is_empty());
    assert_eq!(graph.len(), 0);
    assert!(graph.detect_cycles().is_none());
    assert_eq!(graph.topological_sort(), Ok(vec![]));
    assert!(graph.get_dependencies("x").is_none());
}

#[test]
fn add_module_replaces_and_lists_in_order() {
    let mut graph = ModuleGraph::new();
    graph.add_module("b".to_string(), vec!["c".to_string()]);
    graph.add_module("a".to_string(), vec![]);
    graph.add_module("b".to_string(), vec![]);
    assert_eq!(graph.len(), 2);
    assert_eq!(graph.get_dependencies("b").unwrap().len(), 0);
    assert_eq!(graph.get_all_modules(), vec!["b".to_string(), "a".to_string()]);
}
