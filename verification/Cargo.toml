[package]
name = "yggdrasil_jumper"
version = "0.1.0"
edition = "2021"
publish = false

[dependencies]
bytecodec = "=0.5.0"
stun_codec = "=0.4.0"
rand = "=0.9.5"
kcp = "=0.6.0"
yggdrasilctl = { version = "=1.2.3", default-features = false, features = ["use_tokio"] }
tokio = { version = "=1.54.1", features = ["rt", "net", "time", "sync", "macros", "signal", "io-util"] }
serde = { version = "=1.0.229", features = ["derive"] }
serde_json = "=1.0.154"
toml = "=1.1.8"
tracing = "=0.1.44"
tracing-subscriber = "=0.3.23"
clap = { version = "=4.6.7", features = ["derive"] }
socket2 = { version = "=0.6.5", features = ["all"] }
