[package]
name = "ostrich"
version = "0.1.0"
edition = "2021"
publish = false

[dependencies]
indexmap = "=1.9.3"
anyhow = "=1.0.104"
argh = "=0.1.19"
thiserror = "=1.0.69"
tokio = { version = "=1.54.1", features = ["rt", "rt-multi-thread", "sync", "time", "macros", "net", "io-util"] }
futures = "=0.3.34"
log = "=0.4.34"
lazy_static = "=1.5.1"
tokio-rustls = "=0.23.4"
webpki-roots = "=0.22.6"
local-ip-address = "=0.5.7"
sha2 = "0.10"
if-watch = { version = "3", features = ["tokio"] }
signal-hook = "0.3"
signal-hook-tokio = { version = "0.3", features = ["futures-v0_3"] }
