use godot_asset_browser::user_features::{HistoryAction, UserFeatures};

fn features() -> UserFeatures {
    UserFeatures::new("user://user_features.json".to_string())
}

#[test]
fn test_favorites_toggle_twice_restores() {
    let mut f = features();
    assert!(f.add_favorite("a".to_string()));
    assert!(!f.add_favorite("a".to_string()));
    assert!(!f.toggle_favorite("b".to_string()) == false);
    assert!(f.is_favorite("b"));
    assert!(!f.toggle_favorite("b".to_string()));
    assert!(!f.is_favorite("b"));
    assert!(f.is_favorite("a"));
    assert!(f.remove_favorite("a"));
    assert!(!f.remove_favorite("a"));
    assert!(f.get_favorites().is_empty());
}

#[test]
fn test_rating_range() {
    let mut f = features();
    assert_eq!(f.set_rating("a".to_string(), 0).unwrap_err(), "Rating must be between 1 and 5");
    assert!(f.set_rating("a".to_string(), 6).is_err());
    assert!(f.set_rating("a".to_string(), 5).is_ok());
    assert_eq!(f.get_rating("a"), Some(5));
    assert!(f.set_rating("a".to_string(), 1).is_ok());
    assert_eq!(f.get_rating("a"), Some(1));
    assert!(f.remove_rating("a"));
    assert_eq!(f.get_rating("a"), None);
}

#[test]
fn test_history_recent_first() {
    let mut f = features();
    f.add_history_entry_at("a".to_string(), HistoryAction::Install, "1.0".to_string(), None, 10);
    f.add_history_entry_at("b".to_string(), HistoryAction::Update, "2.0".to_string(), None, 20);
    f.add_history_entry_at("a".to_string(), HistoryAction::Uninstall, "1.0".to_string(), None, 30);
    assert_eq!(f.get_history().len(), 3);
    assert_eq!(f.get_asset_history("a").len(), 2);
    assert_eq!(f.get_history_by_action(HistoryAction::Update).len(), 1);
    let recent = f.get_recent_history(2);
    assert_eq!(recent.len(), 2);
    assert_eq!(recent[0].timestamp, 20);
    assert_eq!(recent[1].timestamp, 30);
    f.clear_asset_history("a");
    assert_eq!(f.get_history().len(), 1);
}

#[test]
fn test_collections() {
    let mut f = features();
    assert!(f.create_collection_at("c1".to_string(), "One".to_string(), "d".to_string(), 5).is_ok());
    assert!(f.create_collection_at("c1".to_string(), "Again".to_string(), "d".to_string(), 6).is_err());
    assert!(f.add_to_collection_at("c1", "x".to_string(), 7).is_ok());
    assert!(f.add_to_collection_at("c1", "x".to_string(), 8).is_err());
    assert!(f.add_to_collection_at("nope", "x".to_string(), 8).is_err());
    assert_eq!(f.get_collections_with_asset("x").len(), 1);
    assert!(f.remove_from_collection_at("c1", "x", 9).is_ok());
    assert!(f.remove_from_collection_at("c1", "x", 9).is_err());
    assert!(f.delete_collection("c1").is_ok());
    assert!(f.delete_collection("c1").is_err());
    assert!(f.get_collection("c1").is_none());
}

#[test]
fn test_statistics() {
    let mut f = features();
    f.add_favorite("a".to_string());
    f.set_rating("a".to_string(), 4).unwrap();
    f.set_rating("b".to_string(), 2).unwrap();
    let s = f.get_statistics();
    assert_eq!(s.total_favorites, 1);
    assert_eq!(s.total_ratings, 2);
    assert_eq!(s.rating_sum, 6);
}
