[package]
name = "che_rest"
version = "0.1.0"
edition = "2021"
publish = false

[dependencies]
sha2 = "=0.10.9"
hex = "=0.4.3"
rand = "=0.8.8"
argon2 = "=0.5.3"
chrono = { version = "=0.4.45", default-features = false, features = ["alloc"] }
serde = { version = "=1.0.229", features = ["derive"] }
serde_json = "=1.0.154"
toml = "=0.8.23"
time = { version = "=0.3.55", features = ["formatting", "parsing"] }
tokio = { version = "=1.54.1", default-features = false, features = ["sync", "rt-multi-thread", "macros", "net", "time"] }
che-orm = "=0.3.3"
axum = { version = "0.8", features = ["ws"] }
futures-util = "0.3"
refinery = { version = "0.10", features = ["rusqlite", "int8-versions"] }
