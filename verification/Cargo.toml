[package]
name = "roads"
version = "0.1.0"
edition = "2021"
publish = false

[dependencies]
anyhow = "1"
crossterm = "0.25"
futures = "0.3"
opener = "*"
serde = { version = "1", features = ["derive"] }
surf = { version = "2", default-features = false, features = ["h1-client-rustls"] }
tokio = { version = "1", features = ["rt-multi-thread", "macros", "time"] }
tui = "0.19"
