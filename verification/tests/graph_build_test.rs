use iris::engine::graph_build::{GraphAction, GraphBuilder, GraphEvent};

fn read(v: &[&str]) -> GraphEvent {
    GraphEvent::ModuleRead(Ok(v.iter().map(|s| s.to_string()).collect()))
}

#[test]
fn builds_depth_first_and_reads_each_module_once() {
    let (mut b, a) = GraphBuilder::new("/p/main.js");
    assert!(matches!(a, GraphAction::ReadModule(ref k) if k == "/p/main.js"));
    let a = b.step(read(&["vue", "./a.js", "./b.js"]));
    assert!(matches!(a, GraphAction::ResolveNpm(ref n) if n == "vue"));
    let a = b.step(GraphEvent::NpmResolved(Ok(())));
    assert!(matches!(a, GraphAction::ResolveLocal { ref dep, ref importer } if dep == "./a.js" && importer == "/p/main.js"));
    let a = b.step(GraphEvent::LocalResolved(Some("/p/a.js".to_string())));
    assert!(matches!(a, GraphAction::ReadModule(ref k) if k == "/p/a.js"));
    let a = b.step(read(&["./b.js"]));
    assert!(matches!(a, GraphAction::ResolveLocal { ref dep, ref importer } if dep == "./b.js" && importer == "/p/a.js"));
    let a = b.step(GraphEvent::LocalResolved(Some("/p/b.js".to_string())));
    assert!(matches!(a, GraphAction::ReadModule(ref k) if k == "/p/b.js"));
    let a = b.step(read(&["./a.js"]));
    assert!(matches!(a, GraphAction::ResolveLocal { ref dep, .. } if dep == "./a.js"));
    // a.js was read already: not read again.
    let a = b.step(GraphEvent::LocalResolved(Some("/p/a.js".to_string())));
    assert!(matches!(a, GraphAction::ResolveLocal { ref dep, ref importer } if dep == "./b.js" && importer == "/p/main.js"));
    let a = b.step(GraphEvent::LocalResolved(Some("/p/b.js".to_string())));
    assert!(matches!(a, GraphAction::Done));
    let g = b.into_graph();
    assert_eq!(g.len(), 3);
    assert_eq!(g.key_at(0), "/p/main.js");
    assert_eq!(g.key_at(1), "/p/a.js");
    assert_eq!(g.key_at(2), "/p/b.js");
    assert_eq!(g.get("/p/a.js"), Some(&vec!["./b.js".to_string()]));
}

#[test]
fn missing_local_files_are_skipped_and_errors_stop() {
    let (mut b, _) = GraphBuilder::new("m.js");
    let a = b.step(read(&["./gone.js", "@scope/pkg"]));
    assert!(matches!(a, GraphAction::ResolveLocal { .. }));
    let a = b.step(GraphEvent::LocalResolved(None));
    assert!(matches!(a, GraphAction::ResolveNpm(ref n) if n == "@scope/pkg"));
    let a = b.step(GraphEvent::NpmResolved(Err("Package not found".to_string())));
    assert!(matches!(a, GraphAction::Failed(ref e) if e == "Package not found"));

    let (mut b, _) = GraphBuilder::new("m.js");
    let a = b.step(GraphEvent::ModuleRead(Err("Failed to read file".to_string())));
    assert!(matches!(a, GraphAction::Failed(ref e) if e == "Failed to read file"));

    let (mut b, _) = GraphBuilder::new("m.js");
    let a = b.step(GraphEvent::NpmResolved(Ok(())));
    assert!(matches!(a, GraphAction::Failed(ref e) if e == "unexpected event"));
}

#[test]
fn module_without_imports_completes() {
    let (mut b, _) = GraphBuilder::new("/only.js");
    assert!(matches!(b.step(read(&[])), GraphAction::Done));
    let g = b.into_graph();
    assert_eq!(g.get("/only.js"), Some(&Vec::new()));
}
