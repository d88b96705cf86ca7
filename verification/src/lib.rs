//! Asset catalogue, versioning, source management and user features of the Godot Asset Browser.
pub mod text;
pub mod prerelease;
pub mod asset;
pub mod seqs;
pub mod version_order;
pub mod clock;
pub mod version_checker;
pub mod keyed;
pub mod authentication;
pub mod user_features;
pub mod config_manager;
pub mod asset_source_registry;
pub mod godot_asset_library_api;
pub mod paths;
pub mod repository_adapter;
pub mod health_checker;
pub mod download_manager;
pub mod image_cache;
pub mod asset_manager;
pub mod browser_view;
