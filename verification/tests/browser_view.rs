use godot_asset_browser::asset::{Asset, AssetCategory};
use godot_asset_browser::asset_manager::AssetManager;
use godot_asset_browser::browser_view::{asset_status, AssetStatus, BrowserView, SortCriteria};

#[test]
fn test_sort_criteria_enum() {
    let name = SortCriteria::Name;
    let category = SortCriteria::Category;
    let author = SortCriteria::Author;

    assert_ne!(name, category);
    assert_ne!(name, author);
    assert_ne!(category, author);
}

#[test]
fn test_sort_criteria_copy_clone() {
    let first = SortCriteria::Name;
    let copied = first;
    let cloned = first.clone();

    assert_eq!(first, copied);
    assert_eq!(first, cloned);
}

#[test]
fn test_sort_criteria_debug() {
    let criteria = SortCriteria::Name;
    let debug_str = format!("{:?}", criteria);
    assert!(debug_str.contains("Name"));
}

#[test]
fn test_asset_status_enum() {
    let not_installed = AssetStatus::NotInstalled;
    let installed = AssetStatus::Installed;
    let update_available = AssetStatus::UpdateAvailable;

    assert_ne!(not_installed, installed);
    assert_ne!(not_installed, update_available);
    assert_ne!(installed, update_available);
}

#[test]
fn test_asset_status_copy_clone() {
    let first = AssetStatus::Installed;
    let copied = first;
    let cloned = first.clone();

    assert_eq!(first, copied);
    assert_eq!(first, cloned);
}

#[test]
fn test_asset_status_debug() {
    let status = AssetStatus::UpdateAvailable;
    let debug_str = format!("{:?}", status);
    assert!(debug_str.contains("UpdateAvailable"));
}

#[test]
fn test_asset_status_from_index() {
    assert_eq!(AssetStatus::from_index(0), AssetStatus::NotInstalled);
    assert_eq!(AssetStatus::from_index(1), AssetStatus::Installed);
    assert_eq!(AssetStatus::from_index(2), AssetStatus::UpdateAvailable);
    assert_eq!(AssetStatus::from_index(99), AssetStatus::NotInstalled);
}

#[test]
fn test_sort_criteria_from_index() {
    assert_eq!(SortCriteria::from_index(0), SortCriteria::Name);
    assert_eq!(SortCriteria::from_index(1), SortCriteria::Category);
    assert_eq!(SortCriteria::from_index(2), SortCriteria::Author);
    assert_eq!(SortCriteria::from_index(99), SortCriteria::Name);
}

// Further cases

#[test]
fn test_listing_sorted_by_name() {
    let manager = AssetManager::new();
    let view = BrowserView::new();
    let names: Vec<String> = view.visible_assets(&manager).iter().map(|a| a.name.clone()).collect();
    assert_eq!(
        names,
        vec![
            "3D Character Models".to_string(),
            "Audio Effects Library".to_string(),
            "Awesome 2D Sprites".to_string(),
            "Shader Pack Pro".to_string(),
            "Utility Scripts Collection".to_string(),
        ]
    );
}

#[test]
fn test_listing_by_author_and_category() {
    let mut manager = AssetManager::new();
    let mut extra = Asset::minimal("6".to_string(), "Zeta".to_string());
    extra.author = "codeninja".to_string();
    extra.category = AssetCategory::Scripts;
    manager.add_asset(extra);
    let mut view = BrowserView::new();
    view.on_sort_changed(2);
    let ids: Vec<String> = view.visible_assets(&manager).iter().map(|a| a.id.clone()).collect();
    assert_eq!(ids, vec!["5", "6", "2", "1", "3", "4"]);
    view.on_category_changed(6);
    assert_eq!(view.category_filter(), Some(AssetCategory::Scripts));
    let ids: Vec<String> = view.visible_assets(&manager).iter().map(|a| a.id.clone()).collect();
    assert_eq!(ids, vec!["5", "6"]);
    view.on_category_changed(42);
    assert_eq!(view.category_filter(), Some(AssetCategory::Scripts));
    view.on_category_changed(0);
    assert_eq!(view.category_filter(), None);
}

#[test]
fn test_listing_with_search() {
    let manager = AssetManager::new();
    let mut view = BrowserView::new();
    view.on_search_changed("EFFECTS".to_string());
    let ids: Vec<String> = view.visible_assets(&manager).iter().map(|a| a.id.clone()).collect();
    assert_eq!(ids, vec!["4", "3"]);
    view.on_sort_changed(1);
    let ids: Vec<String> = view.visible_assets(&manager).iter().map(|a| a.id.clone()).collect();
    assert_eq!(ids, vec!["4", "3"]);
}

#[test]
fn test_asset_status_of_assets() {
    let mut manager = AssetManager::new();
    assert_eq!(asset_status(&manager, "1", None), AssetStatus::NotInstalled);
    manager.record_installed("1".to_string());
    assert_eq!(asset_status(&manager, "1", None), AssetStatus::Installed);
    assert_eq!(asset_status(&manager, "1", Some("0.9.0")), AssetStatus::UpdateAvailable);
    manager.record_installed("ghost".to_string());
    assert_eq!(asset_status(&manager, "ghost", None), AssetStatus::Installed);
    assert_eq!(AssetStatus::UpdateAvailable.badge_text(), "Update Available");
    assert_eq!(AssetStatus::Installed.index(), 1);
}
