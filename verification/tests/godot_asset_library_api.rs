use godot_asset_browser::asset::AssetCategory;
use godot_asset_browser::godot_asset_library_api::{
    AssetListParams, GodotAssetLibraryClient, GODOT_ASSET_LIBRARY_API,
};

#[test]
fn test_asset_list_params_query_string() {
    let params = AssetListParams::new()
        .with_query("platformer".to_string())
        .with_category("2d".to_string())
        .with_page(1)
        .with_max_results(20);

    let query = params.to_query_string();
    assert!(query.contains("filter=platformer"));
    assert!(query.contains("category=2d"));
    assert!(query.contains("page=1"));
    assert!(query.contains("max_results=20"));
}

#[test]
fn test_empty_params_query_string() {
    let params = AssetListParams::new();
    let query = params.to_query_string();
    assert_eq!(query, "");
}

#[test]
fn test_client_creation() {
    let client = GodotAssetLibraryClient::new();
    assert_eq!(client.get_base_url(), GODOT_ASSET_LIBRARY_API);
    assert!(client.get_auth_token().is_none());
}

#[test]
fn test_client_with_auth() {
    let client = GodotAssetLibraryClient::new().with_auth("test_token".to_string());
    assert_eq!(client.get_auth_token(), Some("test_token".to_string()));
}

#[test]
fn test_custom_url() {
    let custom_url = "https://custom.repo.com/api";
    let client = GodotAssetLibraryClient::with_url(custom_url.to_string());
    assert_eq!(client.get_base_url(), custom_url);
}

#[test]
fn test_category_mapping() {
    let client = GodotAssetLibraryClient::new();

    assert_eq!(client.map_category("2D Tools"), AssetCategory::TwoD);
    assert_eq!(client.map_category("Shaders"), AssetCategory::Shaders);
    assert_eq!(client.map_category("Scripts"), AssetCategory::Scripts);
    assert_eq!(client.map_category("Unknown"), AssetCategory::Misc);
}

// Further cases

#[test]
fn test_query_string_exact_text() {
    let params = AssetListParams::new()
        .with_query("a b".to_string())
        .with_page(2);
    assert_eq!(params.to_query_string(), "?filter=a%20b&page=2");
}

#[test]
fn test_asset_urls() {
    let client = GodotAssetLibraryClient::with_url("https://x.org/api".to_string());
    assert_eq!(client.asset_detail_url("42"), "https://x.org/api/asset/42");
    assert_eq!(client.configure_url(), "https://x.org/api/configure");
    let list = client.asset_list_url(&AssetListParams::new().with_max_results(5));
    assert_eq!(list, "https://x.org/api/asset?max_results=5");
}

#[test]
fn test_rate_limit_refuses_over_limit() {
    let mut client = GodotAssetLibraryClient::new().with_rate_limit(2);
    assert!(client.admit_request_at(1_000).is_ok());
    assert!(client.admit_request_at(1_001).is_ok());
    assert!(client.admit_request_at(1_002).is_err());
    assert!(client.admit_request_at(70_000).is_ok());
}

#[test]
fn test_cache_read_after_write() {
    let mut client = GodotAssetLibraryClient::new();
    client.store_response_at("u".to_string(), "data".to_string(), 10);
    assert_eq!(client.cached_response_at("u", 11).map(|s| s.as_str()), Some("data"));
    client.clear_cache();
    assert!(client.cached_response_at("u", 11).is_none());
}
