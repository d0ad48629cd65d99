[package]
name = "daystrom_core"
version = "0.1.0"
edition = "2021"
publish = false

[dependencies]
colored = "*"
dirs = "*"
log = "*"
serde = { version = "*", features = ["derive"] }
tauri = { version = "*", default-features = false }
tauri-plugin-log = { version = "*", default-features = false }
time = { version = "*", features = ["formatting", "local-offset", "macros", "parsing"] }
ts-rs = { version = "*", default-features = false }
