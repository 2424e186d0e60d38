[package]
name = "squid"
version = "0.1.0"
edition = "2021"
publish = false

[dependencies]
chrono = { version = "=0.4.45", default-features = false, features = ["std", "clock"] }
clap = { version = "=4.6.7", features = ["derive"] }
hyper = { version = "=0.14.32", features = ["full"] }
tokio = { version = "=1.54.1", features = ["full"] }
tower = { version = "=0.4.13", features = ["util"] }
tower-http = { version = "=0.4.4", features = ["fs"] }
syntect = { version = "=5.3.0", default-features = false, features = ["default-syntaxes", "default-themes", "html", "regex-fancy"] }
rss = "=2.1.2"
