[package]
name = "canvas_collab"
version = "0.1.0"
edition = "2021"
publish = false

[dependencies]
chrono = "=0.4.45"
nanoid = "=0.5.0"
serde = { version = "=1.0.229", features = ["derive"] }
serde_json = "=1.0.151"
tokio = { version = "=1.53.2", features = ["sync", "rt", "macros", "time"] }
futures-util = "=0.3.34"
actix = "=0.13.5"
actix-web = "=4.15.0"
actix-ws = "=0.4.0"
actix-files = "=0.7.0"
handlebars = { version = "=6.4.4", features = ["dir_source"] }
jsonwebtoken = "=11.1.0"
argon2 = { version = "=0.5.3", features = ["std"] }
regex = "=1.13.1"
anyhow = "=1.0.104"
derive_more = { version = "=2.1.1", features = ["display", "error"] }
