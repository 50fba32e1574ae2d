[package]
name = "vk_catalog"
version = "0.1.0"
edition = "2021"
publish = false

[dependencies]
reqwest = { version = "=0.13.5", default-features = false, features = ["json", "stream", "form"] }
tokio = { version = "*", features = ["rt-multi-thread", "macros", "sync", "time", "io-util", "fs"] }
futures-util = "*"
serde = { version = "*", features = ["derive"] }
serde_json = "*"
