[package]
name = "taipei"
version = "0.1.0"
edition = "2021"
publish = false

[dependencies]
anyhow = "1"
bon = "3"
delegate = "*"
pin-project-lite = "0.2"
thiserror = "2"
tokio = { version = "1", features = ["rt-multi-thread", "sync", "time", "macros", "net"] }
tokio-util = { version = "0.7", features = ["rt"] }
tower = { version = "0.5", features = ["util"] }
idyll-route = "*"
