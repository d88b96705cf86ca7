use std::time::Instant;
use godot_asset_browser::asset::{Asset, AssetCategory, AssetDependency, AssetVersionInfo, SemanticVersion};
use godot_asset_browser::asset_manager::{
    extract_file_extension, is_version_newer, validation_failure_message, validation_outcome, ArchiveKind,
    AssetImporter, AssetManager, ValidationResult,
};

#[test]
fn test_asset_manager_new() {
    let manager = AssetManager::new();

    // Should have sample assets initialized
    let assets = manager.get_assets();
    assert!(!assets.is_empty(), "AssetManager should initialize with sample assets");

    // Check asset directory is set
    assert_eq!(manager.get_asset_dir(), "res://addons/");
    assert_eq!(manager.get_cache_dir(), "user://asset_cache/");
}

#[test]
fn test_get_assets() {
    let manager = AssetManager::new();
    let assets = manager.get_assets();

    // Should have sample assets
    assert!(!assets.is_empty());

    // Verify some sample assets are present
    let asset_names: Vec<String> = assets.iter().map(|a| a.name.clone()).collect();
    assert!(asset_names
        .iter()
        .any(|name| name.contains("Sprites") || name.contains("Character") || name.contains("Shader")));
}

#[test]
fn test_get_assets_by_category() {
    let manager = AssetManager::new();

    // Test filtering by 2D category
    let assets_2d = manager.get_assets_by_category(AssetCategory::TwoD);
    for asset in &assets_2d {
        assert_eq!(asset.category, AssetCategory::TwoD);
    }

    // Test filtering by 3D category
    let assets_3d = manager.get_assets_by_category(AssetCategory::ThreeD);
    for asset in &assets_3d {
        assert_eq!(asset.category, AssetCategory::ThreeD);
    }

    // Test filtering by Shaders category
    let assets_shaders = manager.get_assets_by_category(AssetCategory::Shaders);
    for asset in &assets_shaders {
        assert_eq!(asset.category, AssetCategory::Shaders);
    }
}

#[test]
fn test_search_assets() {
    let manager = AssetManager::new();

    // Search by name
    let results = manager.search_assets("sprite");
    assert!(!results.is_empty(), "Should find assets matching 'sprite'");
    for asset in &results {
        let found = asset.name.to_lowercase().contains("sprite")
            || asset.description.to_lowercase().contains("sprite")
            || asset.tags.iter().any(|t| t.to_lowercase().contains("sprite"));
        assert!(found, "Result should match search query");
    }

    // Search by description keyword
    let results = manager.search_assets("visual");
    for asset in &results {
        let found = asset.name.to_lowercase().contains("visual")
            || asset.description.to_lowercase().contains("visual")
            || asset.tags.iter().any(|t| t.to_lowercase().contains("visual"));
        assert!(found, "Result should match search query");
    }

    // Search with no results
    let results = manager.search_assets("nonexistent_query_xyz");
    assert!(results.is_empty(), "Should return empty for non-matching query");
}

#[test]
fn test_get_asset_by_id() {
    let manager = AssetManager::new();
    let all_assets = manager.get_assets();

    if let Some(first_asset) = all_assets.first() {
        let found = manager.get_asset_by_id(&first_asset.id);
        assert!(found.is_some(), "Should find asset by ID");
        assert_eq!(found.unwrap().id, first_asset.id);
    }

    // Test with non-existent ID
    let not_found = manager.get_asset_by_id("nonexistent_id_xyz");
    assert!(not_found.is_none(), "Should return None for non-existent ID");
}

#[test]
fn test_add_asset() {
    let mut manager = AssetManager::new();
    let initial_count = manager.get_assets().len();

    let new_asset = Asset::new(
        "test_asset_1".to_string(),
        "Test Asset".to_string(),
        AssetCategory::Tools,
        "".to_string(),
        "Test Author".to_string(),
        "1.0.0".to_string(),
        "A test asset".to_string(),
        vec!["test".to_string()],
        None,
        "https://example.com/test.zip".to_string(),
        vec![],
        vec![],
    );

    manager.add_asset(new_asset.clone());

    let updated_count = manager.get_assets().len();
    assert_eq!(updated_count, initial_count + 1, "Asset count should increase by 1");

    let found = manager.get_asset_by_id("test_asset_1");
    assert!(found.is_some(), "Newly added asset should be found");
    assert_eq!(found.unwrap().name, "Test Asset");
}

#[test]
fn test_remove_asset() {
    let mut manager = AssetManager::new();

    // Add a test asset
    let test_asset = Asset::minimal("test_remove_1".to_string(), "Test Remove".to_string());
    manager.add_asset(test_asset.clone());

    // Verify it was added
    assert!(manager.get_asset_by_id("test_remove_1").is_some());

    // Remove it
    manager.remove_asset("test_remove_1");

    // Verify it was removed
    assert!(manager.get_asset_by_id("test_remove_1").is_none());
}

#[test]
fn test_is_asset_installed() {
    let mut manager = AssetManager::new();

    // Initially no assets should be installed
    assert!(!manager.is_asset_installed("test_asset_1"));

    // Add to installed list for testing
    manager.record_installed("test_asset_1".to_string());

    // Now it should be installed
    assert!(manager.is_asset_installed("test_asset_1"));
    assert!(!manager.is_asset_installed("test_asset_2"));
}

#[test]
fn test_get_installed_assets() {
    let mut manager = AssetManager::new();

    // Initially should be empty
    let installed = manager.get_installed_assets();
    let initial_count = installed.len();

    // Add some installed assets for testing
    manager.record_installed("asset_1".to_string());
    manager.record_installed("asset_2".to_string());

    let installed = manager.get_installed_assets();
    assert_eq!(installed.len(), initial_count + 2);
    assert!(installed.contains(&"asset_1".to_string()));
    assert!(installed.contains(&"asset_2".to_string()));
}

#[test]
fn test_add_multiple_assets() {
    let mut manager = AssetManager::new();
    let initial_count = manager.get_assets().len();

    for i in 0..5 {
        let asset = Asset::minimal(format!("test_multi_{}", i), format!("Test Asset {}", i));
        manager.add_asset(asset);
    }

    let final_count = manager.get_assets().len();
    assert_eq!(final_count, initial_count + 5);
}

#[test]
fn test_search_by_tag() {
    let mut manager = AssetManager::new();

    // Add an asset with specific tags
    let mut asset = Asset::minimal("tag_test_1".to_string(), "Tag Test".to_string());
    asset.tags = vec!["unique_tag_xyz".to_string()];
    manager.add_asset(asset);

    // Search for that tag
    let results = manager.search_assets("unique_tag_xyz");
    assert!(!results.is_empty(), "Should find asset by tag");
    assert!(results.iter().any(|a| a.id == "tag_test_1"));
}

#[test]
fn test_search_case_insensitive() {
    let mut manager = AssetManager::new();

    let asset = Asset::minimal("case_test_1".to_string(), "CaseSensitive".to_string());
    manager.add_asset(asset);

    // Search with different cases
    let results_lower = manager.search_assets("casesensitive");
    let results_upper = manager.search_assets("CASESENSITIVE");
    let results_mixed = manager.search_assets("CaseSensitive");

    assert!(!results_lower.is_empty());
    assert!(!results_upper.is_empty());
    assert!(!results_mixed.is_empty());
}

#[test]
fn test_get_assets_by_nonexistent_category() {
    let manager = AssetManager::new();

    let audio_assets = manager.get_assets_by_category(AssetCategory::Audio);

    for asset in &audio_assets {
        assert_eq!(asset.category, AssetCategory::Audio);
    }
}

#[test]
fn test_asset_removal_doesnt_affect_installed_list() {
    let mut manager = AssetManager::new();

    // Add and "install" an asset
    let asset = Asset::minimal("persist_test_1".to_string(), "Persist Test".to_string());
    manager.add_asset(asset);

    manager.record_installed("persist_test_1".to_string());

    // Remove the asset from the main list
    manager.remove_asset("persist_test_1");

    // Installed list should still contain it
    assert!(manager.is_asset_installed("persist_test_1"));
}

#[test]
fn test_check_for_update_no_version_history() {
    let mut manager = AssetManager::new();

    // Add an asset without version history
    let asset = Asset::minimal("no_version_test".to_string(), "No Version Test".to_string());
    manager.add_asset(asset);

    let result = manager.check_for_update("no_version_test", None);

    // Should succeed but return None (no update available)
    assert!(result.is_ok());
    if let Ok(update) = result {
        assert!(update.is_none(), "Should have no update when no version history exists");
    }
}

#[test]
fn test_check_for_update_with_newer_version() {
    let mut manager = AssetManager::new();

    // Add an asset with current version 1.0.0
    let mut asset = Asset::minimal("version_test".to_string(), "Version Test".to_string());
    asset.version = "1.0.0".to_string();

    // Add a newer version to version history
    let newer_version = AssetVersionInfo::new(
        SemanticVersion::new(1, 1, 0),
        "2024-01-15".to_string(),
        "New version".to_string(),
        "https://example.com/v1.1.0.zip".to_string(),
    );
    asset.version_history.push(newer_version);

    manager.add_asset(asset);

    let result = manager.check_for_update("version_test", None);
    assert!(result.is_ok());
    if let Ok(Some(update)) = result {
        assert!(update.has_update());
    }
}

#[test]
fn test_check_for_update_already_latest() {
    let mut manager = AssetManager::new();

    // Add an asset with current version 2.0.0
    let mut asset = Asset::minimal("latest_test".to_string(), "Latest Test".to_string());
    asset.version = "2.0.0".to_string();

    // Add same version to version history
    let same_version = AssetVersionInfo::new(
        SemanticVersion::new(2, 0, 0),
        "2024-01-15".to_string(),
        "Current version".to_string(),
        "https://example.com/v2.0.0.zip".to_string(),
    );
    asset.version_history.push(same_version);

    manager.add_asset(asset);

    let result = manager.check_for_update("latest_test", None);
    assert!(result.is_ok());
    if let Ok(update) = result {
        assert!(update.is_none() || !update.unwrap().has_update());
    }
}

#[test]
fn test_check_for_update_nonexistent_asset() {
    let manager = AssetManager::new();

    // When asset is not installed, it returns Ok(None)
    let result = manager.check_for_update("nonexistent_asset_xyz", None);
    assert!(result.is_ok(), "Should return Ok for non-installed asset");
    assert!(result.unwrap().is_none(), "Should return None for non-installed asset");
}

#[test]
fn test_check_for_update_installed_but_not_in_catalog() {
    let mut manager = AssetManager::new();

    // Mark an asset as installed that doesn't exist in catalog
    manager.record_installed("nonexistent_asset_xyz".to_string());

    // Now it should return an error since it's installed but not in catalog
    let result = manager.check_for_update("nonexistent_asset_xyz", None);
    assert!(result.is_err(), "Should return error for installed asset not in catalog");
}

#[test]
fn test_asset_importer_new() {
    let base_dir = "/tmp/test_assets".to_string();
    let importer = AssetImporter::new(base_dir.clone());

    assert_eq!(importer.get_base_extract_dir(), base_dir);
    assert_eq!(importer.preserve_temp_on_error(), false);
}

#[test]
fn test_asset_importer_with_default_dir() {
    let importer = AssetImporter::with_default_dir();
    assert_eq!(importer.get_base_extract_dir(), "res://addons/");
}

#[test]
fn test_asset_importer_set_preserve_temp() {
    let mut importer = AssetImporter::new("/tmp/test".to_string());

    assert_eq!(importer.preserve_temp_on_error(), false);

    importer.set_preserve_temp(true);
    assert_eq!(importer.preserve_temp_on_error(), true);

    importer.set_preserve_temp(false);
    assert_eq!(importer.preserve_temp_on_error(), false);
}

#[test]
fn test_validation_result_new() {
    let result = ValidationResult::new();

    assert!(result.valid);
    assert!(result.errors.is_empty());
    assert!(result.warnings.is_empty());
    assert!(result.is_valid());
}

#[test]
fn test_validation_result_add_error() {
    let mut result = ValidationResult::new();

    result.add_error("Test error".to_string());

    assert!(!result.valid);
    assert!(!result.is_valid());
    assert_eq!(result.errors.len(), 1);
    assert_eq!(result.errors[0], "Test error");
}

#[test]
fn test_validation_result_add_warning() {
    let mut result = ValidationResult::new();

    result.add_warning("Test warning".to_string());

    assert!(result.valid, "Warnings should not affect validity");
    assert!(result.is_valid());
    assert_eq!(result.warnings.len(), 1);
    assert_eq!(result.warnings[0], "Test warning");
}

#[test]
fn test_validation_result_multiple_errors() {
    let mut result = ValidationResult::new();

    result.add_error("Error 1".to_string());
    result.add_error("Error 2".to_string());
    result.add_warning("Warning 1".to_string());

    assert!(!result.is_valid());
    assert_eq!(result.errors.len(), 2);
    assert_eq!(result.warnings.len(), 1);
}

#[test]
fn test_search_index_creation() {
    let manager = AssetManager::new();

    // Verify search index is initialized
    let (names, tags, descriptions) = manager.search_index_sizes();
    assert_eq!(names, 5); // 5 sample assets
    assert_eq!(tags, 5);
    assert_eq!(descriptions, 5);
}

#[test]
fn test_optimized_search() {
    let manager = AssetManager::new();

    // Search for "shader" - should find "Shader Pack Pro"
    let results = manager.search_assets("shader");
    assert_eq!(results.len(), 1);
    assert_eq!(results[0].name, "Shader Pack Pro");

    // Search for "2d" - should find assets with "2d" tag or in name
    let results = manager.search_assets("2d");
    assert!(results.len() > 0);
    assert!(results.iter().any(|a| a.name == "Awesome 2D Sprites"));

    // Case-insensitive search
    let results_upper = manager.search_assets("SHADER");
    let results_lower = manager.search_assets("shader");
    assert_eq!(results_upper.len(), results_lower.len());
}

#[test]
fn test_search_index_rebuild_on_add() {
    let mut manager = AssetManager::new();
    let initial_count = manager.get_asset_count();

    // Add a new asset
    let new_asset = Asset::new(
        "test_123".to_string(),
        "Test Performance Asset".to_string(),
        AssetCategory::Tools,
        "".to_string(),
        "TestAuthor".to_string(),
        "1.0.0".to_string(),
        "A test asset for performance optimization".to_string(),
        vec!["test".to_string(), "performance".to_string()],
        None,
        "https://example.com/test.zip".to_string(),
        vec![],
        vec![],
    );

    manager.add_asset(new_asset);

    // Verify asset was added
    assert_eq!(manager.get_asset_count(), initial_count + 1);

    // Verify search index was rebuilt and can find the new asset
    let results = manager.search_assets("performance");
    assert!(results.iter().any(|a| a.id == "test_123"));

    // Verify index size matches asset count
    let (names, _, _) = manager.search_index_sizes();
    assert_eq!(names, initial_count + 1);
}

#[test]
fn test_search_index_rebuild_on_remove() {
    let mut manager = AssetManager::new();
    let initial_count = manager.get_asset_count();

    // Add a test asset
    let new_asset = Asset::new(
        "temp_asset".to_string(),
        "Temporary Asset".to_string(),
        AssetCategory::Tools,
        "".to_string(),
        "TestAuthor".to_string(),
        "1.0.0".to_string(),
        "This will be removed".to_string(),
        vec!["temporary".to_string()],
        None,
        "https://example.com/temp.zip".to_string(),
        vec![],
        vec![],
    );

    manager.add_asset(new_asset);
    assert_eq!(manager.get_asset_count(), initial_count + 1);

    // Remove the asset
    manager.remove_asset("temp_asset");
    assert_eq!(manager.get_asset_count(), initial_count);

    // Verify search index was rebuilt and asset is no longer found
    let results = manager.search_assets("temporary");
    assert!(results.is_empty());

    // Verify index size matches asset count
    let (names, _, _) = manager.search_index_sizes();
    assert_eq!(names, initial_count);
}

#[test]
fn test_pagination() {
    let manager = AssetManager::new();
    let total_assets = manager.get_asset_count();

    // Test first page
    let page_size = 2;
    let page1 = manager.get_assets_paginated(0, page_size);
    assert_eq!(page1.len(), page_size);

    // Test second page
    let page2 = manager.get_assets_paginated(1, page_size);
    assert_eq!(page2.len(), page_size);

    // Verify pages contain different assets
    assert_ne!(page1[0].id, page2[0].id);

    // Test last page (might be partial)
    let last_page_index = (total_assets - 1) / page_size;
    let last_page = manager.get_assets_paginated(last_page_index, page_size);
    assert!(last_page.len() > 0);
    assert!(last_page.len() <= page_size);

    // Test out-of-bounds page
    let empty_page = manager.get_assets_paginated(999, page_size);
    assert!(empty_page.is_empty());
}

#[test]
fn test_pagination_consistency() {
    let manager = AssetManager::new();
    let total_assets = manager.get_asset_count();
    let page_size = 2;

    // Collect all assets via pagination
    let mut paginated_assets = Vec::new();
    let mut page = 0;
    loop {
        let page_assets = manager.get_assets_paginated(page, page_size);
        if page_assets.is_empty() {
            break;
        }
        paginated_assets.extend(page_assets);
        page += 1;
    }

    // Should match total asset count
    assert_eq!(paginated_assets.len(), total_assets);

    // Should match get_assets() result
    let all_assets = manager.get_assets();
    assert_eq!(paginated_assets.len(), all_assets.len());
}

#[test]
fn test_get_asset_count() {
    let manager = AssetManager::new();
    let count = manager.get_asset_count();

    // Should have sample assets
    assert!(count > 0);

    // Should match get_assets length
    assert_eq!(count, manager.get_assets().len());
}

#[test]
fn test_search_performance_with_large_dataset() {
    let mut manager = AssetManager::new();

    // Add 100 test assets to simulate larger dataset
    for i in 0..100 {
        let asset = Asset::new(
            format!("perf_test_{}", i),
            format!("Performance Test Asset {}", i),
            if i % 2 == 0 { AssetCategory::TwoD } else { AssetCategory::ThreeD },
            "".to_string(),
            format!("Author {}", i % 10),
            "1.0.0".to_string(),
            format!("Description for asset number {}", i),
            vec![format!("tag{}", i % 5), "performance".to_string()],
            None,
            format!("https://example.com/asset_{}.zip", i),
            vec![],
            vec![],
        );
        manager.add_asset(asset);
    }

    // Measure search performance
    let start = Instant::now();
    let results = manager.search_assets("performance");
    let duration = start.elapsed();

    // Should find all 100 test assets (plus any from sample data)
    assert!(results.len() >= 100);

    // Search should complete quickly
    assert!(duration.as_millis() < 100, "Search took {:?}, expected < 100ms", duration);
}

// Further cases

#[test]
fn test_sample_catalogue_contents() {
    let manager = AssetManager::new();
    let assets = manager.get_assets();
    assert_eq!(assets.len(), 5);
    assert_eq!(assets[0].id, "1");
    assert_eq!(assets[4].name, "Utility Scripts Collection");
    assert!(assets[4].preview_url.is_none());
    assert_eq!(manager.get_assets_by_category(AssetCategory::Audio).len(), 1);
}

#[test]
fn test_add_replaces_same_id() {
    let mut manager = AssetManager::new();
    let mut a = Asset::minimal("1".to_string(), "Replaced".to_string());
    a.version = "9.9.9".to_string();
    manager.add_asset(a);
    assert_eq!(manager.get_asset_count(), 5);
    let assets = manager.get_assets();
    assert_eq!(assets[4].name, "Replaced");
    assert_eq!(manager.get_asset_by_id("1").unwrap().name, "Replaced");
}

#[test]
fn test_record_installed_once_and_uninstalled() {
    let mut manager = AssetManager::new();
    manager.record_installed("a".to_string());
    manager.record_installed("a".to_string());
    manager.record_installed("b".to_string());
    assert_eq!(manager.get_installed_assets(), vec!["a".to_string(), "b".to_string()]);
    manager.record_uninstalled("a");
    assert_eq!(manager.get_installed_assets(), vec!["b".to_string()]);
}

#[test]
fn test_is_version_newer_values() {
    assert!(is_version_newer("1.2.0", "1.1.9"));
    assert!(!is_version_newer("1.1.9", "1.2.0"));
    assert!(!is_version_newer("1.0", "1.0.0"));
    assert!(is_version_newer("1.0.1", "1.0"));
    assert!(!is_version_newer("2.0.0", "2.0.0"));
    assert!(is_version_newer("2.x.1", "2.0.0"));
}

#[test]
fn test_check_for_update_uses_installed_version() {
    let mut manager = AssetManager::new();
    manager.record_installed("2".to_string());
    let update = manager.check_for_update("2", Some("2.0.9")).unwrap();
    assert_eq!(update.unwrap().version, "2.1.0");
    assert!(manager.check_for_update("2", Some("2.1.0")).unwrap().is_none());
    assert!(manager.check_for_update("2", None).unwrap().is_none());
    let all = manager.check_all_for_updates(&vec![Some("1.0.0".to_string())]).unwrap();
    assert_eq!(all.len(), 1);
    assert_eq!(all[0].id, "2");
}

#[test]
fn test_check_for_update_error_message() {
    let mut manager = AssetManager::new();
    manager.record_installed("ghost".to_string());
    assert_eq!(manager.check_for_update("ghost", None).unwrap_err(), "Asset 'ghost' not found in catalog");
}

#[test]
fn test_file_extension_and_cache_name() {
    assert_eq!(extract_file_extension("https://x.org/a/b.tar.gz?x=1").unwrap(), "tar.gz");
    assert_eq!(extract_file_extension("https://x.org/a/b.zip").unwrap(), "zip");
    assert_eq!(extract_file_extension("https://x.org/a/file").unwrap(), "file");
    let manager = AssetManager::new();
    assert_eq!(manager.cache_file_name("3").unwrap(), "3_3.0.5.zip");
    assert_eq!(manager.cache_file_name("zz").unwrap_err(), "Asset with ID 'zz' not found");
}

#[test]
fn test_resolve_dependencies_and_plan() {
    let mut manager = AssetManager::new();
    let mut a = Asset::minimal("main".to_string(), "Main".to_string());
    a.add_dependency(AssetDependency::new("dep-a".to_string(), "A".to_string(), "^1.0".to_string()));
    a.add_dependency(AssetDependency::new("dep-b".to_string(), "B".to_string(), "2.0".to_string()));
    manager.add_asset(a);
    manager.record_installed("dep-b".to_string());
    let missing = manager.resolve_dependencies("main").unwrap();
    assert_eq!(missing, vec!["dep-a (version: ^1.0)".to_string()]);
    let plan = manager.dependency_install_plan("main").unwrap();
    assert_eq!(plan, vec!["dep-a".to_string(), "main".to_string()]);
    assert_eq!(manager.resolve_dependencies("nope").unwrap_err(), "Asset 'nope' not found");
    assert_eq!(
        manager.dependency_install_plan("nope").unwrap_err(),
        "Failed to resolve dependencies: Asset 'nope' not found"
    );
}

#[test]
fn test_detect_conflicts() {
    let mut manager = AssetManager::new();
    manager.record_installed("a".to_string());
    manager.record_installed("b".to_string());
    manager.record_installed("c".to_string());
    let files = vec!["x.gd".to_string(), "y.tscn".to_string()];
    let others = vec![
        Some(files.clone()),
        Some(vec!["y.tscn".to_string()]),
        None,
    ];
    let conflicts = manager.detect_conflicts("a", &files, &others);
    assert_eq!(conflicts, vec!["File conflict with 'b': y.tscn".to_string()]);
}

#[test]
fn test_archive_kind() {
    assert_eq!(AssetImporter::archive_kind("/a/b.zip", "zip").unwrap(), ArchiveKind::Zip);
    assert_eq!(AssetImporter::archive_kind("/a/b.ZIP", "ZIP").unwrap(), ArchiveKind::Zip);
    assert_eq!(AssetImporter::archive_kind("/a/b.tar.gz", "gz").unwrap(), ArchiveKind::TarGz);
    assert_eq!(AssetImporter::archive_kind("/a/b.tgz", "tgz").unwrap(), ArchiveKind::TarGz);
    assert_eq!(
        AssetImporter::archive_kind("/a/b.gz", "gz").unwrap_err(),
        "Unsupported archive format. Expected .tar.gz"
    );
    assert_eq!(AssetImporter::archive_kind("/a/test.rar", "rar").unwrap_err(), "Unsupported archive format: rar");
}

#[test]
fn test_extension_classes() {
    assert!(AssetImporter::is_content_extension("tscn"));
    assert!(AssetImporter::is_content_extension("GD"));
    assert!(!AssetImporter::is_content_extension("png"));
    assert_eq!(AssetImporter::suspicious_pattern("EXE"), Some(".exe".to_string()));
    assert_eq!(AssetImporter::suspicious_pattern("sh"), Some(".sh".to_string()));
    assert_eq!(AssetImporter::suspicious_pattern("txt"), None);
    assert_eq!(AssetImporter::temp_dir_name("test_asset"), "test_asset.tmp_extract");
}

#[test]
fn test_validate_metadata_text() {
    let full = r#"{"name":"n","version":"1.0.0","description":"d","author":"a"}"#;
    assert!(AssetImporter::validate_metadata(full).unwrap().is_empty());
    let partial = r#"{"name":"Test Asset"}"#;
    let warnings = AssetImporter::validate_metadata(partial).unwrap();
    assert_eq!(
        warnings,
        vec![
            "Recommended field 'version' missing from metadata".to_string(),
            "Recommended field 'description' missing from metadata".to_string(),
            "Recommended field 'author' missing from metadata".to_string(),
        ]
    );
    let err = AssetImporter::validate_metadata("{ invalid json }").unwrap_err();
    assert!(err.starts_with("Invalid JSON in metadata file: "));
    assert_eq!(AssetImporter::metadata_version(r#"{"version":"1.2.3"}"#), Some("1.2.3".to_string()));
    assert_eq!(AssetImporter::metadata_version(r#"{"version":3}"#), None);
    assert_eq!(AssetImporter::metadata_version("nope"), None);
}

#[test]
fn test_validation_outcome_cases() {
    let missing = validation_outcome("\"/x\"", false, false, None, false, Ok(()));
    assert!(!missing.is_valid());
    assert_eq!(missing.errors, vec!["Asset directory does not exist: \"/x\"".to_string()]);

    let ok = validation_outcome("\"/x\"", true, true, Some(Ok(vec![])), true, Ok(()));
    assert!(ok.is_valid());
    assert!(ok.warnings.is_empty());

    let bad = validation_outcome("\"/x\"", true, true, None, false, Err("boom".to_string()));
    assert!(!bad.is_valid());
    assert_eq!(bad.errors, vec!["Security validation failed: boom".to_string()]);
    assert_eq!(bad.warnings.len(), 2);
    assert!(bad.warnings[1].contains("No recognizable Godot asset files"));
    assert_eq!(validation_failure_message(&bad), "Asset validation failed:\nSecurity validation failed: boom");
}

#[test]
fn test_validate_asset_nonexistent_directory() {
    // The directory "/nonexistent/path" is not on disk: the file system answers
    // that nothing is there, and the validation is assembled from that answer.
    let result = validation_outcome("/nonexistent/path", false, false, None, false, Ok(()));
    assert!(!result.is_valid(), "Should be invalid for nonexistent directory");
    assert!(!result.errors.is_empty());
    assert_eq!(result.errors[0], "Asset directory does not exist: /nonexistent/path");
}
