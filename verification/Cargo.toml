[package]
name = "blockworld"
version = "0.1.0"
edition = "2021"
publish = false

[dependencies]
bytes = "1"
fs_extra = "1"
hematite-nbt = "0.5"
libz-sys = "1"
regex = "1"
serde_json = "1"
tokio = { version = "1", features = ["fs", "io-util", "macros", "net", "rt-multi-thread", "sync", "time"] }
