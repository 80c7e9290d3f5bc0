[package]
name = "boiler_watch"
version = "0.1.0"
edition = "2021"
publish = false

[dependencies]
clokwerk = "*"
filesize = "*"
log = "0.4"
rocket = { version = "0.5", features = ["json"] }
rocket_cors = "*"
rusqlite = { version = "*", features = ["bundled"] }
serde = { version = "1", features = ["derive"] }
toml = "*"
