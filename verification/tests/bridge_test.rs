use iris::jetcrab::bridge::JetCrabBridge;
#[test]
fn test_create_bridge() {
    let bridge = JetCrabBridge::new();
    assert!(!bridge.is_initialized());
}

#[test]
fn test_init_bridge() {
    let mut bridge = JetCrabBridge::new();
    let result = bridge.init();
    assert!(result.is_ok());
    assert!(bridge.is_initialized());
}

#[test]
fn test_double_init() {
    let mut bridge = JetCrabBridge::new();
    bridge.init().unwrap();
    let result = bridge.init(); // 第二次应该也成功
    assert!(result.is_ok());
}

#[test]
fn test_shutdown() {
    let mut bridge = JetCrabBridge::new();
    bridge.init().unwrap();
    let result = bridge.shutdown();
    assert!(result.is_ok());
    assert!(!bridge.is_initialized());
}
