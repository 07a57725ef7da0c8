[package]
name = "rust_and_vulkan"
version = "0.1.0"
edition = "2021"
publish = false

[dependencies]
serde = { version = "1", features = ["derive"] }
serde_json = "1"
toml = "0.8"
reqwest = { version = "0.12", default-features = false, features = ["json"] }
tokio = { version = "1", features = ["rt-multi-thread", "time", "macros"] }
thiserror = "2"
egui = "0.31"
egui_plot = "0.31"
