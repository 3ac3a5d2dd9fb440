[package]
name = "quatweb"
version = "0.1.0"
edition = "2021"
publish = false

[dependencies]
pulldown-cmark = { version = "0.9", default-features = false }
ramhorns = "*"
tokio = { version = "1", features = ["rt-multi-thread", "fs", "io-util", "sync"] }
warp = "0.3"
serde = { version = "1", features = ["derive"] }
envy = "0.4"
log = "0.4"
pretty_env_logger = "0.4"
thiserror = "1"
