[package]
name = "hk_operator"
version = "0.1.0"
edition = "2021"
publish = false

[dependencies]
base64 = "0.22"
serde = { version = "1", features = ["derive"] }
serde_json = "1"
thiserror = "*"
dirs = "*"
anyhow = "1"
clap = { version = "4", features = ["derive"] }
tokio = { version = "1", features = ["rt-multi-thread", "macros", "sync", "time", "net", "io-util"] }
uuid = "1"
futures-util = "0.3"
rusb = { version = "0.9", features = ["vendored"] }
serialport = { version = "4", default-features = false }
bluer = { version = "0.17", features = ["bluetoothd"] }
arboard = "3"
evdev = "0.12"
libc = "0.2"
open = "5"
