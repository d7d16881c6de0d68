[package]
name = "smugprobe"
version = "0.1.0"
edition = "2021"
publish = false

[dependencies]
rand = "0.8"
clap = { version = "4", features = ["derive"] }
color-print = "0.3"
tokio = { version = "1", features = ["rt-multi-thread", "macros", "net", "io-util", "time"] }
rustls = "0.20"
tokio-rustls = "0.23"
webpki-roots = "0.22"
