[package]
name = "cadmus_sync"
version = "0.1.0"
edition = "2021"
publish = false

[dependencies]
yrs = "*"
sha2 = "*"
hex = "*"
tokio = { version = "*", features = ["rt-multi-thread", "macros", "sync", "time", "net", "io-util"] }
sqlx = { version = "*", features = ["runtime-tokio", "postgres", "sqlite"] }
serde = { version = "*", features = ["derive"] }
serde_json = "*"
uuid = { version = "*", features = ["v4"] }
anyhow = "*"

[dev-dependencies]
y-sync = "*"
