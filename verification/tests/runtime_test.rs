use iris::jetcrab::runtime::{JetCrabRuntime, RuntimeConfig};
#[test]
fn runtime_test_create_runtime() {
    let runtime = JetCrabRuntime::new();
    assert!(!runtime.is_initialized());
}

#[test]
fn test_runtime_config() {
    let config = RuntimeConfig {
        strict_mode: false,
        max_execution_time_ms: 10000,
        enable_source_map: true,
        memory_limit_mb: 1024,
    };

    let runtime = JetCrabRuntime::with_config(config);
    assert!(!runtime.config().strict_mode);
    assert_eq!(runtime.config().max_execution_time_ms, 10000);
    assert!(runtime.config().enable_source_map);
    assert_eq!(runtime.config().memory_limit_mb, 1024);
}

#[test]
fn test_eval_without_init() {
    let runtime = JetCrabRuntime::new();
    let result = runtime.eval("1 + 2");
    assert!(result.is_err());
    assert!(result.unwrap_err().contains("not initialized"));
}

#[test]
fn test_default_config() {
    let config = RuntimeConfig::default();
    assert!(config.strict_mode);
    assert_eq!(config.max_execution_time_ms, 5000);
    assert!(!config.enable_source_map);
    assert_eq!(config.memory_limit_mb, 512);
}

#[test]
fn fetch_response_json_is_the_parsed_body() {
    let r = iris::jetcrab::web_apis::FetchResponse {
        status: 200,
        body: r#"{"a": [1, "x"]}"#.to_string(),
        headers: iris::strmap::StrMap::new(),
    };
    let v = r.json().unwrap();
    assert_eq!(v, serde_json::from_str::<serde_json::Value>(r#"{"a": [1, "x"]}"#).unwrap());
    assert_eq!(r.text(), r#"{"a": [1, "x"]}"#);
    let bad = iris::jetcrab::web_apis::FetchResponse { status: 200, body: "{".to_string(), headers: iris::strmap::StrMap::new() };
    assert!(bad.json().unwrap_err().starts_with("Failed to parse JSON: "));
}
