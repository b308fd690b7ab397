[package]
name = "quo_client"
version = "0.1.0"
edition = "2021"
publish = false

[dependencies]
serde = { version = "=1.0.229", features = ["derive"] }
serde_json = "=1.0.154"
similar = "=2.7.0"
rust-format = "=0.3.4"
itertools = "=0.14.0"
syntect = { version = "=5.3.0", default-features = false, features = ["default-syntaxes", "default-themes", "html", "regex-fancy", "plist-load"] }
chrono = { version = "=0.4.45", features = ["unstable-locales"] }
hyper = { version = "=1.12.0", features = ["server", "http1"] }
http-body-util = "=0.1.5"
hyper-util = { version = "=0.1.21", features = ["tokio"] }
tokio = { version = "=1.54.1", features = ["rt-multi-thread", "net", "macros", "process"] }
port_check = "=0.3.0"
