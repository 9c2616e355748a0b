[package]
name = "meshly-core"
version = "0.1.0"
edition = "2021"
publish = false

[dependencies]
anyhow = "1"
bytes = "1"
clap = { version = "4", default-features = false, features = ["std", "help", "usage", "error-context", "derive"] }
dashmap = "6"
dirs = "6"
hex = "0.4"
hmac = "0.12"
iroh = { version = "~1.0", default-features = false, features = ["tls-ring"] }
rand = "0.8"
serde = { version = "1", features = ["derive"] }
serde_json = { version = "1", features = ["preserve_order"] }
sha2 = "0.10"
subtle = "2"
thiserror = "2"
tokio = { version = "1", features = ["fs", "io-util", "macros", "net", "rt-multi-thread", "signal", "sync", "time"] }
toml = "0.5"
tracing = "0.1"
tracing-subscriber = { version = "0.3", default-features = false, features = ["env-filter", "fmt"] }
