use godot_asset_browser::authentication::{AuthenticationManager, AuthenticationStore, Credentials};
use std::time::{SystemTime, UNIX_EPOCH};

fn now_ms() -> u64 {
    SystemTime::now().duration_since(UNIX_EPOCH).unwrap().as_millis() as u64
}

#[test]
fn test_bearer_token_creation() {
    let creds = Credentials::BearerToken {
        token: "test_token".to_string(),
        expires_at: None,
    };

    let header = creds.to_auth_header();
    assert!(header.is_some());
    let (name, value) = header.unwrap();
    assert_eq!(name, "Authorization");
    assert_eq!(value, "Bearer test_token");
}

#[test]
fn test_api_key_creation() {
    let creds = Credentials::ApiKey {
        key: "test_key".to_string(),
        header_name: Some("X-Custom-Key".to_string()),
    };

    let header = creds.to_auth_header();
    assert!(header.is_some());
    let (name, value) = header.unwrap();
    assert_eq!(name, "X-Custom-Key");
    assert_eq!(value, "test_key");
}

#[test]
fn test_credentials_expiry() {
    let expired = Credentials::BearerToken {
        token: "test".to_string(),
        expires_at: Some(now_ms() - 3_600_000),
    };
    assert!(expired.is_expired());

    let valid = Credentials::BearerToken {
        token: "test".to_string(),
        expires_at: Some(now_ms() + 3_600_000),
    };
    assert!(!valid.is_expired());
}

#[test]
fn test_auth_store_operations() {
    let mut store = AuthenticationStore::new();

    let creds = Credentials::BearerToken {
        token: "test".to_string(),
        expires_at: None,
    };

    store.store_credentials("source1".to_string(), creds.clone());
    assert!(store.has_credentials("source1"));
    assert_eq!(store.count(), 1);

    let retrieved = store.get_credentials("source1");
    assert!(retrieved.is_some());

    store.remove_credentials("source1");
    assert!(!store.has_credentials("source1"));
    assert_eq!(store.count(), 0);
}

#[test]
fn test_auth_manager() {
    let mut manager = AuthenticationManager::new();

    manager.add_bearer_token("source1".to_string(), "token123".to_string(), None);
    assert!(manager.has_auth("source1"));

    let header = manager.get_auth_header("source1");
    assert!(header.is_some());

    manager.remove_auth("source1");
    assert!(!manager.has_auth("source1"));
}

#[test]
fn test_expired_cleanup() {
    let mut store = AuthenticationStore::new();

    let expired = Credentials::BearerToken {
        token: "expired".to_string(),
        expires_at: Some(now_ms() - 3_600_000),
    };

    let valid = Credentials::BearerToken {
        token: "valid".to_string(),
        expires_at: Some(now_ms() + 3_600_000),
    };

    store.store_credentials("expired_source".to_string(), expired);
    store.store_credentials("valid_source".to_string(), valid);

    assert_eq!(store.count(), 2);

    let cleaned = store.clear_expired();
    assert_eq!(cleaned.len(), 1);
    assert_eq!(cleaned[0], "expired_source");
    assert_eq!(store.count(), 1);
    assert!(store.has_credentials("valid_source"));
}

// Further cases

#[test]
fn test_expiry_at_fixed_instants() {
    let c = Credentials::BearerToken { token: "t".to_string(), expires_at: Some(1_000) };
    assert!(!c.is_expired_at(1_000));
    assert!(c.is_expired_at(1_001));
    let n = Credentials::NoAuth;
    assert!(!n.is_expired_at(u64::MAX));
    assert!(n.to_auth_header().is_none());
}

#[test]
fn test_basic_auth_header() {
    let c = Credentials::Basic { username: "user".to_string(), password: "pass".to_string() };
    let (name, value) = c.to_auth_header().unwrap();
    assert_eq!(name, "Authorization");
    assert_eq!(value, "Basic base64(user:pass)");
}

#[test]
fn test_api_key_default_header() {
    let c = Credentials::ApiKey { key: "k".to_string(), header_name: None };
    let (name, value) = c.to_auth_header().unwrap();
    assert_eq!(name, "X-API-Key");
    assert_eq!(value, "k");
}

#[test]
fn test_store_then_get_law() {
    let mut store = AuthenticationStore::new();
    store.store_credentials("s".to_string(), Credentials::ApiKey { key: "a".to_string(), header_name: None });
    store.store_credentials("s".to_string(), Credentials::ApiKey { key: "b".to_string(), header_name: None });
    assert_eq!(store.count(), 1);
    match store.get_credentials("s") {
        Some(Credentials::ApiKey { key, .. }) => assert_eq!(key, "b"),
        _ => panic!("stored credentials not found"),
    }
    assert!(store.remove_credentials("s").is_some());
    assert!(store.get_credentials("s").is_none());
}

#[test]
fn test_update_missing_credentials_error() {
    let mut store = AuthenticationStore::new();
    let r = store.update_credentials("nope", Credentials::NoAuth);
    assert!(r.is_err());
    assert!(store.validate_credentials_at("nope", 0).is_err());
}
