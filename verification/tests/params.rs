use tower_allowed_hosts::params::ForwardedParams;

#[test]
fn params_insert_and_get() {
    let mut params = ForwardedParams::new();
    assert_eq!(params.len(), 0);
    assert_eq!(params.get("by"), None);
    params.insert("by".to_string(), "proxy1".to_string());
    params.insert("host".to_string(), "example.com".to_string());
    assert_eq!(params.len(), 2);
    assert_eq!(params.get("by"), Some("proxy1"));
    assert_eq!(params.get("host"), Some("example.com"));
    assert_eq!(params.get("for"), None);
    assert_eq!(params.name(0), "by");
    assert_eq!(params.value(1), "example.com");
}

#[test]
fn params_later_value_replaces_earlier() {
    let mut params = ForwardedParams::new();
    params.insert("by".to_string(), "first".to_string());
    params.insert("for".to_string(), "x".to_string());
    params.insert("by".to_string(), "second".to_string());
    assert_eq!(params.len(), 2);
    assert_eq!(params.get("by"), Some("second"));
    assert_eq!(params.get("for"), Some("x"));
}
