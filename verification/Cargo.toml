[package]
name = "mimport_core"
version = "0.1.0"
edition = "2021"
publish = false

[dependencies]
pathfinding = "4"
clap = { version = "4", features = ["derive"] }
serde = { version = "1", features = ["derive"] }
serde_json = "1"
toml = "0.8"
reqwest = { version = "0.12", default-features = false, features = ["blocking", "json", "rustls-tls"] }
rusqlite = { version = "0.32", features = ["bundled"] }
lofty = "0.22"
symphonia = "0.5"
image = { version = "0.25", default-features = false, features = ["jpeg", "png", "gif"] }
thiserror = "2"
tracing = "0.1"
tracing-subscriber = "0.3"
