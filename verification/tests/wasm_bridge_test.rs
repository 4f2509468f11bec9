use iris::jetcrab::wasm_bridge::{JsFFIBridge, WasmLoader, WasmExport, fibonacci};

#[test]
fn test_wasm_loader() {
    let mut loader = WasmLoader::new();
    assert_eq!(loader.module_count(), 0);
}

#[test]
fn test_fibonacci() {
    assert_eq!(fibonacci(0), 0);
    assert_eq!(fibonacci(1), 1);
    assert_eq!(fibonacci(2), 1);
    assert_eq!(fibonacci(10), 55);
}

#[test]
fn test_wasm_exports() {
    let export = WasmExport {
        name: "test".to_string(),
        params: 2,
        results: 1,
    };

    assert_eq!(export.name, "test");
    assert_eq!(export.params, 2);
    assert_eq!(export.results, 1);
}

#[test]
fn instances_call_exports_in_any_state() {
    let mut loader = WasmLoader::new();
    loader.add_module("m", "/a.wasm", &[0, 1, 2]).unwrap();
    let first = loader.instantiate("m").unwrap();
    assert_eq!(first.call_export("add", &[2, 3]).unwrap(), vec![5]);
    // A second load and instantiation of the same name give the same exports.
    loader.add_module("m", "/b.wasm", &[]).unwrap();
    let inst = loader.instantiate("m").unwrap();
    assert_eq!(inst.memory_ptr(), 0x1000);
    assert_eq!(inst.call_export("fibonacci", &[10]).unwrap(), vec![55]);
    assert_eq!(inst.call_export("add", &[1]).unwrap(), vec![0]);
    assert_eq!(inst.call_export("mul", &[1]).unwrap_err(), "Export function not found: mul");
    loader.unload_module("m").unwrap();
    assert!(loader.get_instance("m").is_none());
    loader.add_module("m", "/c.wasm", &[9]).unwrap();
    let again = loader.instantiate("m").unwrap();
    assert_eq!(again.call_export("add", &[4, 5]).unwrap(), vec![9]);
    assert!(loader.get_module("m").unwrap().instantiated);
    assert_eq!(loader.instantiate("x").unwrap_err(), "WASM module not found: x");
}

#[test]
fn test_js_ffi_bridge() {
    let mut bridge = JsFFIBridge::new();

    bridge.register_js_function("greet", |args: &[String]| {
        if args.is_empty() {
            "Hello!".to_string()
        } else {
            format!("Hello, {}!", args[0])
        }
    });

    let result = bridge.call_js_function("greet", &["World".to_string()]);
    assert_eq!(result, Ok("Hello, World!".to_string()));

    let functions = bridge.list_functions();
    assert!(functions.contains(&"greet".to_string()));
}

#[test]
fn ffi_bridge_unknown_and_removed_functions() {
    let mut bridge = JsFFIBridge::new();
    let join = |args: &[String]| args.join(",");
    bridge.register_js_function("id", join);
    assert_eq!(bridge.call_js_function("id", &["a".to_string(), "b".to_string()]), Ok("a,b".to_string()));
    assert_eq!(bridge.call_js_function("nope", &[]), Err("JavaScript function not found: nope".to_string()));
    assert!(bridge.unregister_js_function("id").is_some());
    assert!(bridge.unregister_js_function("id").is_none());
    assert!(bridge.list_functions().is_empty());
    bridge.register_js_function("x", join);
    bridge.clear();
    assert!(bridge.list_functions().is_empty());
}
