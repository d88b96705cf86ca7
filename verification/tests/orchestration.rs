use godot_asset_browser::asset::AssetCategory;
use godot_asset_browser::asset_source_registry::AssetSourceRegistry;
use godot_asset_browser::authentication::secure_storage::{
    decrypt_credentials, encrypt_credentials, retrieve_secure, store_secure,
};
use godot_asset_browser::authentication::Credentials;
use godot_asset_browser::config_manager::{AssetSource, ConfigManager, UserPreferences};
use godot_asset_browser::godot_asset_library_api::{health_outcome, GodotAssetDetail, GodotAssetLibraryClient};
use godot_asset_browser::asset_source_registry::SourceHealth;
use godot_asset_browser::health_checker::FallbackOrchestrator;
use godot_asset_browser::keyed::KeyedList;
use godot_asset_browser::repository_adapter::{GodotAssetLibraryAdapter, RepositoryAdapter};

fn registry_with(names: &[(&str, u32)]) -> AssetSourceRegistry {
    let mut registry = AssetSourceRegistry::new();
    for (name, priority) in names {
        registry
            .register_source(AssetSource::new(name.to_string(), format!("https://{}.com", name)), *priority)
            .unwrap();
    }
    registry
}

#[test]
fn test_best_source_prefers_healthy_preferred() {
    let mut registry = registry_with(&[("A", 1), ("B", 2)]);
    registry.record_success_at("A", 1);
    registry.record_success_at("B", 1);
    let mut orchestrator = FallbackOrchestrator::new(registry);
    assert_eq!(orchestrator.get_best_source(None), Some("A".to_string()));
    // The preferred source needs a closed breaker on record.
    assert_eq!(orchestrator.get_best_source(Some("B")), Some("A".to_string()));
    orchestrator.health_checker_mut().finish_check_at("B", Ok(true), 5, 10);
    assert_eq!(orchestrator.get_best_source(Some("B")), Some("B".to_string()));
}

#[test]
fn test_fallbacks_skip_open_breakers() {
    let registry = registry_with(&[("A", 1), ("B", 2), ("C", 3)]);
    let mut orchestrator = FallbackOrchestrator::new(registry).configure_health_checker(1, 60_000, 5);
    orchestrator.health_checker_mut().finish_check_at("B", Err("down".to_string()), 5, 10);
    assert_eq!(orchestrator.get_fallbacks("A"), vec!["C".to_string()]);
}

#[test]
fn test_registry_enable_and_unregister() {
    let mut registry = registry_with(&[("A", 1), ("B", 2)]);
    assert!(registry.set_source_enabled("A", false).is_ok());
    assert_eq!(registry.get_enabled_sources().len(), 1);
    assert!(registry.set_source_enabled("Z", false).is_err());
    assert!(registry.unregister_source("A").is_ok());
    assert!(registry.unregister_source("A").is_err());
    assert_eq!(registry.source_count(), 1);
    assert!(registry.get_source("B").is_some());
}

#[test]
fn test_convert_to_asset() {
    let client = GodotAssetLibraryClient::new();
    let detail = GodotAssetDetail {
        asset_id: "7".to_string(),
        title: "Thing".to_string(),
        description: "d".to_string(),
        author: "a".to_string(),
        author_id: "1".to_string(),
        category: "3D Tools".to_string(),
        category_id: "2".to_string(),
        godot_version: "4.2".to_string(),
        cost: "MIT".to_string(),
        support_level: "community".to_string(),
        icon_url: "https://x/icon.png".to_string(),
        version: "1.0".to_string(),
        version_id: "9".to_string(),
        download_url: "https://x/d.zip".to_string(),
        download_hash: "h".to_string(),
        browse_url: "b".to_string(),
        issues_url: "i".to_string(),
        previews: vec![],
        download_count: 3,
        modify_date: "2024".to_string(),
    };
    let asset = client.convert_to_asset(&detail);
    assert_eq!(asset.id, "7");
    assert_eq!(asset.category, AssetCategory::ThreeD);
    assert_eq!(asset.tags, vec!["3D Tools".to_string(), "4.2".to_string(), "community".to_string()]);
    assert_eq!(asset.preview_url, Some("https://x/icon.png".to_string()));
    assert_eq!(health_outcome(Ok(())), Ok(true));
    assert_eq!(health_outcome(Err("x".to_string())), Err("Health check failed: x".to_string()));
}

#[test]
fn test_secure_storage_not_available() {
    let c = Credentials::NoAuth;
    assert_eq!(encrypt_credentials(&c).unwrap_err(), "Encryption not implemented yet");
    assert_eq!(decrypt_credentials(&[1, 2]).unwrap_err(), "Decryption not implemented yet");
    assert_eq!(store_secure("s", &c).unwrap_err(), "Secure storage not implemented yet");
    assert_eq!(retrieve_secure("s").unwrap_err(), "Secure storage not implemented yet");
}

#[test]
fn test_config_with_auth_and_preferences() {
    let mut manager = ConfigManager::new();
    assert!(manager
        .add_asset_source_with_auth("Private".to_string(), "https://p.com".to_string(), "tok".to_string())
        .is_ok());
    let sources = manager.get_asset_sources();
    assert_eq!(sources[1].auth_token, Some("tok".to_string()));
    let mut prefs = UserPreferences::default();
    prefs.theme = "light".to_string();
    manager.update_preferences(prefs);
    assert_eq!(manager.get_preferences().theme, "light");
    assert_eq!(ConfigManager::resolve_godot_path("user://a.json"), ".godot/config/a.json");
    assert_eq!(ConfigManager::resolve_godot_path("user:///abs/a.json"), "/abs/a.json");
    assert_eq!(ConfigManager::resolve_godot_path("/x"), "/x");
}

#[test]
fn test_check_all_sources_records_outcomes() {
    let mut registry = registry_with(&[("A", 1), ("B", 2), ("C", 3)]);
    registry.set_source_enabled("B", false).unwrap();
    registry.record_failure_at("A", 1);
    let mut orchestrator = FallbackOrchestrator::new(registry);
    let mut adapters: KeyedList<Box<dyn RepositoryAdapter>> = KeyedList::new();
    adapters.insert("A".to_string(), Box::new(GodotAssetLibraryAdapter::new_official()));
    adapters.insert("B".to_string(), Box::new(GodotAssetLibraryAdapter::new_official()));
    orchestrator.check_all_sources(&adapters);
    let a = orchestrator.registry().get_source("A").unwrap();
    assert_eq!(a.health, SourceHealth::Healthy);
    assert_eq!(a.failure_count, 0);
    assert!(a.last_health_check.is_some());
    // Disabled, so not checked though it has an adapter.
    let b = orchestrator.registry().get_source("B").unwrap();
    assert_eq!(b.health, SourceHealth::Unknown);
    assert!(b.last_health_check.is_none());
    // No adapter, so not checked.
    let c = orchestrator.registry().get_source("C").unwrap();
    assert!(c.last_health_check.is_none());
}
