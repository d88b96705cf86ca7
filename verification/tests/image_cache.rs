use godot_asset_browser::image_cache::ImageCache;
use tempfile::TempDir;

fn cache_in(dir: &TempDir) -> ImageCache {
    ImageCache::new(dir.path().to_string_lossy().to_string())
}

#[test]
fn test_cache_creation() {
    let temp_dir = TempDir::new().unwrap();
    let cache = cache_in(&temp_dir);

    assert_eq!(cache.get_cache_size(), 0);
    assert_eq!(cache.get_max_cache_size(), 100 * 1024 * 1024);
}

#[test]
fn test_cache_with_custom_size() {
    let temp_dir = TempDir::new().unwrap();
    let cache = cache_in(&temp_dir).with_max_size(50 * 1024 * 1024);

    assert_eq!(cache.get_max_cache_size(), 50 * 1024 * 1024);
}

#[test]
fn test_generate_cache_filename() {
    let temp_dir = TempDir::new().unwrap();
    let cache = cache_in(&temp_dir);

    let filename1 = cache.generate_cache_filename("https://example.com/image.jpg");
    let filename2 = cache.generate_cache_filename("https://example.com/image.jpg");
    let filename3 = cache.generate_cache_filename("https://example.com/other.png");

    // Same URL should generate same filename
    assert_eq!(filename1, filename2);

    // Different URLs should generate different filenames
    assert_ne!(filename1, filename3);

    // Should preserve extension
    assert!(filename1.ends_with(".jpg"));
    assert!(filename3.ends_with(".png"));
}

#[test]
fn test_is_cached_initially_false() {
    let temp_dir = TempDir::new().unwrap();
    let cache = cache_in(&temp_dir);

    assert!(!cache.is_cached("https://example.com/image.jpg"));
}

#[test]
fn test_clear_cache() {
    let temp_dir = TempDir::new().unwrap();
    let mut cache = cache_in(&temp_dir);

    // Initially empty
    assert_eq!(cache.get_cache_size(), 0);

    // Clear should succeed even when empty
    assert!(cache.clear_entries().is_empty());
    assert_eq!(cache.get_cache_size(), 0);
}

#[test]
fn test_get_stats() {
    let temp_dir = TempDir::new().unwrap();
    let cache = cache_in(&temp_dir);

    let stats = cache.get_stats();
    assert_eq!(stats.total_entries, 0);
    assert_eq!(stats.total_size_bytes, 0);
    assert_eq!(stats.max_size_bytes, 100 * 1024 * 1024);
}

// Further cases

#[test]
fn test_eviction_frees_oldest_first() {
    let mut cache = ImageCache::new("/tmp/c".to_string()).with_max_size(100);
    cache.add_entry_at("u1".to_string(), "/tmp/c/a".to_string(), 40, 1);
    cache.add_entry_at("u2".to_string(), "/tmp/c/b".to_string(), 40, 2);
    let removed = cache.make_room(30);
    assert_eq!(removed, vec!["/tmp/c/a".to_string()]);
    assert_eq!(cache.get_cache_size(), 40);
    assert!(cache.cached_file("u1").is_none());
    assert_eq!(cache.cached_file("u2").map(|s| s.as_str()), Some("/tmp/c/b"));
}

#[test]
fn test_filename_with_long_extension_gets_jpg() {
    let cache = ImageCache::new("/tmp/c".to_string());
    let name = cache.generate_cache_filename("https://example.com/image");
    assert!(name.ends_with(".jpg"));
    let webp = cache.generate_cache_filename("https://example.com/a.webp?x=1");
    assert!(webp.ends_with(".webp"));
}
