use iris::jetcrab::web_apis_enhanced::{LocalStorage, SessionStorage, WebSocket, WebSocketState, XMLHttpRequest};
#[test]
fn test_local_storage() {
    let mut storage = LocalStorage::new();
    
    // 测试设置和获取
    storage.set_item("key1", "value1").unwrap();
    assert_eq!(storage.get_item("key1"), Some("value1".to_string()));
    
    // 测试移除
    assert_eq!(storage.remove_item("key1"), Some("value1".to_string()));
    assert_eq!(storage.get_item("key1"), None);
    
    // 测试清除
    storage.set_item("key2", "value2").unwrap();
    storage.clear();
    assert_eq!(storage.length(), 0);
}

#[test]
fn test_local_storage_quota() {
    let mut storage = LocalStorage::new();
    
    // 写入大量数据应该失败
    let large_value = "x".repeat(6 * 1024 * 1024); // 6MB
    let result = storage.set_item("large", &large_value);
    
    assert!(result.is_err());
    assert!(result.unwrap_err().contains("quota"));
}

#[test]
fn test_session_storage() {
    let mut storage = SessionStorage::new();
    
    storage.set_item("key1", "value1");
    assert_eq!(storage.get_item("key1"), Some("value1".to_string()));
    assert_eq!(storage.length(), 1);
    
    storage.clear();
    assert_eq!(storage.length(), 0);
}

#[test]
fn test_websocket() {
    let mut ws = WebSocket::new("ws://localhost:8080");
    
    assert_eq!(*ws.state(), WebSocketState::Connecting);
    
    // 模拟连接成功
    ws.state = WebSocketState::Open;
    
    // 测试发送消息
    let result = ws.send_text("Hello");
    assert!(result.is_ok());
    
    // 测试关闭
    ws.close();
    assert_eq!(*ws.state(), WebSocketState::Closed);
}

#[test]
fn test_xhr() {
    let mut xhr = XMLHttpRequest::new();
    
    xhr.open("GET", "http://localhost:8080/api");
    xhr.set_request_header("Content-Type", "application/json");
    
    let result = xhr.send(None);
    assert!(result.is_ok());
    
    assert_eq!(xhr.status(), Some(200));
    assert!(xhr.loaded());
}
