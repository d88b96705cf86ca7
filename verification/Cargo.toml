[package]
name = "godot_asset_browser"
version = "0.1.0"
edition = "2021"
publish = false

[dependencies]
godot = "*"
reqwest = { version = "*", default-features = false, features = ["json", "stream"] }
tokio = { version = "*", features = ["rt", "sync", "time", "fs", "io-util"] }
futures-util = "*"
serde = { version = "*", features = ["derive"] }
serde_json = "*"
zip = { version = "*", default-features = false, features = ["deflate"] }
tar = "*"
flate2 = "*"

[dev-dependencies]
tempfile = "*"
