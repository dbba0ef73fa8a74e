[package]
name = "torrentox"
version = "0.1.0"
edition = "2021"
publish = false

[dependencies]
bitvec = "1"
clap = { version = "4", features = ["derive", "cargo"] }
color-eyre = "0.6"
eyre = "0.6"
log = "0.4"
log4rs = "1"
rand = "0.9"
reqwest = { version = "0.12", default-features = false }
rusqlite = "0.32"
serde_urlencoded = "0.7"
sha1 = "0.10"
thiserror = "1"
tokio = { version = "1", features = ["io-util", "macros", "net", "rt", "time"] }
url = "2"

[dev-dependencies]
serde_bencode = "0.2"
