use iris::js::dom_bindings::DOMBindings;
use iris::js::module::{EsModule, ModuleRegistry, ModuleResolver, ModuleStatus};
use iris::layout::dom::DOMNode;
use iris::layout::domtree::DOMTree;

#[test]
fn test_create_module() {
    let module = EsModule::new("test.js", "export const a = 1;");
    assert_eq!(module.specifier, "test.js");
    assert_eq!(module.status, ModuleStatus::Unloaded);
}

#[test]
fn test_register_module() {
    let mut registry = ModuleRegistry::new();
    registry.register("test.js", "export const a = 1;");
    assert_eq!(registry.module_count(), 1);
}

#[test]
fn test_get_module() {
    let mut registry = ModuleRegistry::new();
    registry.register("test.js", "export const a = 1;");

    let module = registry.get_module("test.js");
    assert!(module.is_some());
    assert_eq!(module.unwrap().specifier, "test.js");
}

#[test]
fn test_resolve_relative_path() {
    let resolver = ModuleResolver::new();

    assert_eq!(resolver.resolve("./module.js", "/src"), "/src/./module.js");
    assert_eq!(resolver.resolve("../module.js", "/src/components"), "/src/components/../module.js");
}

#[test]
fn test_resolve_absolute_path() {
    let resolver = ModuleResolver::new();
    assert_eq!(resolver.resolve("/module.js", "/src"), "/module.js");
}

#[test]
fn test_resolve_package_name() {
    let resolver = ModuleResolver::new();
    assert_eq!(resolver.resolve("vue", "/src"), "vue");
    assert_eq!(resolver.resolve("@vue/runtime-core", "/src"), "@vue/runtime-core");
}

#[test]
fn test_clear_modules() {
    let mut registry = ModuleRegistry::new();
    registry.register("test1.js", "");
    registry.register("test2.js", "");
    assert_eq!(registry.module_count(), 2);

    registry.clear();
    assert_eq!(registry.module_count(), 0);
}

#[test]
fn resolve_with_trailing_slash_and_registry() {
    let mut resolver = ModuleResolver::default();
    resolver.set_base_path("/app");
    assert_eq!(resolver.resolve("./a.js", "/src/"), "/src/./a.js");
    let mut registry = ModuleRegistry::default();
    registry.register("a.js", "1");
    registry.register("a.js", "2");
    assert_eq!(registry.module_count(), 1);
    assert_eq!(registry.get_module("a.js").unwrap().code, "2");
    assert_eq!(registry.resolve("./b.js", "/x"), "/x/./b.js");
}

#[test]
fn test_create_dom_bindings() {
    let root = DOMNode::new_element("html");
    let dom_tree = DOMTree::new(root);
    let bindings = DOMBindings::new(dom_tree);

    assert_eq!(bindings.dom_tree().root.tag_name(), Some("html"));
}
