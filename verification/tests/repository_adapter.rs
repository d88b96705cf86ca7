use godot_asset_browser::repository_adapter::{
    GodotAssetLibraryAdapter, RepositoryAdapter, RepositoryAdapterFactory, RepositorySearchOptions, RepositoryType,
};

#[test]
fn test_repository_search_options() {
    let options = RepositorySearchOptions::new()
        .with_query("platformer".to_string())
        .with_category("2D Tools".to_string())
        .with_page(1);

    assert_eq!(options.query, Some("platformer".to_string()));
    assert_eq!(options.category, Some("2D Tools".to_string()));
    assert_eq!(options.page, 1);
    assert_eq!(options.page_size, 20);
}

#[test]
fn test_godot_adapter_creation() {
    let adapter = GodotAssetLibraryAdapter::new_official();
    assert_eq!(adapter.repository_type(), RepositoryType::GodotAssetLibrary);
}

#[test]
fn test_custom_adapter_creation() {
    let custom_url = "https://custom.repo.com/api".to_string();
    let adapter = GodotAssetLibraryAdapter::new_custom(custom_url.clone());
    assert_eq!(adapter.repository_type(), RepositoryType::GodotCompatible);
    assert_eq!(adapter.get_location(), custom_url);
}

#[test]
fn test_adapter_factory() {
    let result = RepositoryAdapterFactory::create_adapter(RepositoryType::GodotAssetLibrary, String::new(), None);
    assert!(result.is_ok());
}

// Further cases

#[test]
fn test_adapter_factory_git_not_implemented() {
    let result = RepositoryAdapterFactory::create_adapter(RepositoryType::GitRepository, "x".to_string(), None);
    assert!(result.is_err());
}

#[test]
fn test_godot_adapter_categories() {
    let adapter = GodotAssetLibraryAdapter::new_official();
    let cats = adapter.list_categories().unwrap();
    assert_eq!(cats.len(), 7);
    assert_eq!(cats[0], "2D Tools");
    assert!(adapter.search(RepositorySearchOptions::new()).is_err());
}
