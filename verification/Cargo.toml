[package]
name = "video_hash_filesystem_cache"
version = "0.1.0"
edition = "2021"
publish = false

[dependencies]
vid_dup_finder_lib = { version = "=0.1.2", features = ["app_only_fns"] }
walkdir = "=2.5.0"
serde = { version = "1", features = ["derive"] }
bincode = "1"
