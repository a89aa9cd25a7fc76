[package]
name = "check_login"
version = "0.1.0"
edition = "2021"
publish = false

[dependencies]
serde = { version = "1", features = ["derive"] }
serde_json = "1"
colored = "2"
ctrlc = "3"
enable-ansi-support = "0.2"
image = { version = "0.24", default-features = false, features = ["png"] }
lazy_static = "1"
tokio = { version = "1", features = ["rt-multi-thread", "macros", "time"] }
