[package]
name = "epizentrum"
version = "0.1.0"
edition = "2021"
publish = false

[dependencies]
rand = "0.8"
clap = { version = "4", features = ["derive", "env"] }
eyre = "0.6"
image = "0.24"
os_socketaddr = "0.2"
socket2 = "0.5"
rayon = "1"
thiserror = "1"
tracing = "0.1"
tracing-subscriber = { version = "0.3", features = ["env-filter"] }
io-uring = "0.6"
