use iris::layout::event::{Event, EventRegistry};
#[test]
fn test_event_creation() {
    let event = Event::new("click");
    assert_eq!(event.event_type, "click");
    assert!(event.bubbles);
    assert!(!event.cancelable);
    assert!(!event.propagation_stopped);
}

#[test]
fn test_stop_propagation() {
    let mut event = Event::new("click");
    assert!(!event.propagation_stopped);
    event.stop_propagation();
    assert!(event.propagation_stopped);
}

#[test]
fn test_prevent_default() {
    let mut event = Event::new_cancelable("submit");
    assert!(!event.default_prevented);
    event.prevent_default();
    assert!(event.default_prevented);

    // 不可取消的事件
    let mut event2 = Event::new("click");
    event2.prevent_default();
    assert!(!event2.default_prevented);
}

#[test]
fn test_event_registry() {
    let mut registry = EventRegistry::new();
    
    // 添加监听器
    let id1 = registry.add_listener(1, "click", false);
    let id2 = registry.add_listener(1, "click", true);
    let id3 = registry.add_listener(2, "click", false);

    // 验证 ID 递增
    assert!(id1 < id2 && id2 < id3);

    // 获取监听器
    let bubble_listeners = registry.get_listeners(1, "click", false);
    assert_eq!(bubble_listeners.len(), 1);

    let capture_listeners = registry.get_listeners(1, "click", true);
    assert_eq!(capture_listeners.len(), 1);

    // 移除监听器
    assert!(registry.remove_listener(1, id1));
    assert!(!registry.remove_listener(1, id1)); // 已移除

    let bubble_listeners = registry.get_listeners(1, "click", false);
    assert_eq!(bubble_listeners.len(), 0);
}
