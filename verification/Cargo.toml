[package]
name = "serve_folder"
version = "0.1.0"
edition = "2021"
publish = false

[dependencies]
fastrand = "2"
num_cpus = "1"
rayon = "1"
serde = { version = "1", features = ["derive"] }
serde_json = "1"
tempfile = "3"
tokio = { version = "1", features = ["rt-multi-thread", "macros", "sync", "time"] }
walkdir = "2"
warp = { version = "0.3", default-features = false }
zip = { version = "0.6", default-features = false, features = ["deflate"] }
native-windows-gui = "1"
winreg = "0.52"
