use godot_asset_browser::asset_source_registry::{AssetSourceRegistry, AuthMethod, ManagedAssetSource, SourceHealth};
use godot_asset_browser::config_manager::AssetSource;

fn create_test_source(name: &str, url: &str) -> AssetSource {
    AssetSource::new(name.to_string(), url.to_string())
}

#[test]
fn test_managed_source_creation() {
    let source = create_test_source("Test", "https://test.com");
    let managed = ManagedAssetSource::new(source, 1);

    assert_eq!(managed.health, SourceHealth::Unknown);
    assert_eq!(managed.failure_count, 0);
    assert_eq!(managed.priority, 1);
}

#[test]
fn test_failure_tracking() {
    let source = create_test_source("Test", "https://test.com");
    let mut managed = ManagedAssetSource::new(source, 1);

    // First failure should be degraded
    managed.record_failure();
    assert_eq!(managed.health, SourceHealth::Degraded);
    assert_eq!(managed.failure_count, 1);

    // Multiple failures should be unhealthy
    managed.record_failure();
    managed.record_failure();
    assert_eq!(managed.health, SourceHealth::Unhealthy);
    assert_eq!(managed.failure_count, 3);

    // Success should reset
    managed.record_success();
    assert_eq!(managed.health, SourceHealth::Healthy);
    assert_eq!(managed.failure_count, 0);
}

#[test]
fn test_registry_operations() {
    let mut registry = AssetSourceRegistry::new();

    let source1 = create_test_source("Source1", "https://source1.com");
    let source2 = create_test_source("Source2", "https://source2.com");

    assert!(registry.register_source(source1, 1).is_ok());
    assert!(registry.register_source(source2, 2).is_ok());

    assert_eq!(registry.source_count(), 2);

    // Duplicate should fail
    let source1_dup = create_test_source("Source1", "https://source1.com");
    assert!(registry.register_source(source1_dup, 1).is_err());
}

#[test]
fn test_priority_sorting() {
    let mut registry = AssetSourceRegistry::new();

    let source_low = create_test_source("LowPriority", "https://low.com");
    let source_high = create_test_source("HighPriority", "https://high.com");

    registry.register_source(source_low, 10).unwrap();
    registry.register_source(source_high, 1).unwrap();

    let sources = registry.get_enabled_sources();
    assert_eq!(sources.len(), 2);
    assert_eq!(sources[0].source.name, "HighPriority");
    assert_eq!(sources[1].source.name, "LowPriority");
}

#[test]
fn test_fallback_sources() {
    let mut registry = AssetSourceRegistry::new();

    let source1 = create_test_source("Source1", "https://source1.com");
    let source2 = create_test_source("Source2", "https://source2.com");
    let source3 = create_test_source("Source3", "https://source3.com");

    registry.register_source(source1, 1).unwrap();
    registry.register_source(source2, 2).unwrap();
    registry.register_source(source3, 3).unwrap();

    // Mark source2 as healthy
    registry.record_success("Source2");

    let fallbacks = registry.get_fallback_sources("Source1");
    assert_eq!(fallbacks.len(), 2);
    // Source2 should be first (healthy)
    assert_eq!(fallbacks[0].source.name, "Source2");
}

#[test]
fn test_health_stats() {
    let mut registry = AssetSourceRegistry::new();

    let source1 = create_test_source("Source1", "https://source1.com");
    let source2 = create_test_source("Source2", "https://source2.com");

    registry.register_source(source1, 1).unwrap();
    registry.register_source(source2, 2).unwrap();

    registry.record_success("Source1");
    registry.record_failure("Source2");

    let stats = registry.get_health_stats();
    assert_eq!(stats.total, 2);
    assert_eq!(stats.healthy, 1);
    assert_eq!(stats.degraded, 1);
}

#[test]
fn test_auth_methods() {
    let source = create_test_source("Test", "https://test.com");
    let managed = ManagedAssetSource::new(source, 1).with_auth(AuthMethod::BearerToken("test_token".to_string()));

    let header = managed.get_auth_header();
    assert!(header.is_some());
    let (name, value) = header.unwrap();
    assert_eq!(name, "Authorization");
    assert_eq!(value, "Bearer test_token");
}

// Further cases

#[test]
fn test_fallback_order_by_health_then_priority() {
    let mut registry = AssetSourceRegistry::new();
    registry.register_source(create_test_source("A", "https://a.com"), 5).unwrap();
    registry.register_source(create_test_source("B", "https://b.com"), 1).unwrap();
    registry.register_source(create_test_source("C", "https://c.com"), 3).unwrap();
    registry.register_source(create_test_source("D", "https://d.com"), 2).unwrap();
    registry.record_success_at("C", 1);
    registry.record_failure_at("B", 1);
    let names: Vec<String> = registry.get_fallback_sources("D").iter().map(|s| s.source.name.clone()).collect();
    assert_eq!(names, vec!["C".to_string(), "B".to_string(), "A".to_string()]);
    registry.set_fallback_enabled(false);
    assert!(registry.get_fallback_sources("D").is_empty());
}

#[test]
fn test_register_invalid_source_fails() {
    let mut registry = AssetSourceRegistry::new();
    assert!(registry.register_source(create_test_source("", "https://a.com"), 1).is_err());
    assert!(registry.register_source(create_test_source("X", "ftp://a.com"), 1).is_err());
    assert_eq!(registry.source_count(), 0);
}
