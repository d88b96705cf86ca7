use godot_asset_browser::config_manager::{AssetSource, Config, ConfigManager, UserPreferences};

#[test]
fn test_asset_source_validation() {
    let valid_source = AssetSource::new("Test".to_string(), "https://example.com".to_string());
    assert!(valid_source.validate().is_ok());

    let invalid_url = AssetSource::new("Test".to_string(), "invalid-url".to_string());
    assert!(invalid_url.validate().is_err());

    let empty_name = AssetSource::new("".to_string(), "https://example.com".to_string());
    assert!(empty_name.validate().is_err());
}

#[test]
fn test_add_asset_source() {
    let mut manager = ConfigManager::new();

    assert!(manager.add_asset_source("Test Source".to_string(), "https://test.com".to_string()).is_ok());

    // Should fail to add duplicate
    assert!(manager.add_asset_source("Test Source".to_string(), "https://test2.com".to_string()).is_err());
}

#[test]
fn test_remove_asset_source() {
    let mut manager = ConfigManager::new();

    manager.add_asset_source("Test Source".to_string(), "https://test.com".to_string()).unwrap();

    assert!(manager.remove_asset_source("Test Source").is_ok());
    assert!(manager.remove_asset_source("Nonexistent").is_err());
}

#[test]
fn test_config_migration() {
    let config = Config { version: 0, asset_sources: vec![], preferences: UserPreferences::default() };

    let migrated = config.migrate(0, 1).unwrap();
    assert_eq!(migrated.version, 1);
}

#[test]
fn test_user_preferences() {
    let mut manager = ConfigManager::new();

    manager.set_theme("dark".to_string());
    assert_eq!(manager.get_preferences().theme, "dark");

    manager.set_layout("list".to_string());
    assert_eq!(manager.get_preferences().layout, "list");

    manager.set_default_filters(vec!["models".to_string(), "textures".to_string()]);
    assert_eq!(manager.get_preferences().default_filters.len(), 2);
}

// Further cases

#[test]
fn test_default_config_has_official_source() {
    let manager = ConfigManager::new();
    let sources = manager.get_asset_sources();
    assert_eq!(sources.len(), 1);
    assert_eq!(sources[0].name, "Godot Asset Library");
    assert_eq!(manager.get_version(), 1);
}

#[test]
fn test_migration_unknown_path() {
    let config = Config { version: 3, asset_sources: vec![], preferences: UserPreferences::default() };
    assert!(config.migrate(3, 7).is_err());
}

#[test]
fn test_enable_unknown_source_fails() {
    let mut manager = ConfigManager::new();
    assert!(manager.set_asset_source_enabled("nope", false).is_err());
    assert!(manager.set_asset_source_enabled("Godot Asset Library", false).is_ok());
    assert_eq!(manager.get_enabled_asset_sources().len(), 0);
}
