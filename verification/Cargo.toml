[package]
name = "cxdb"
version = "0.1.0"
edition = "2021"
publish = false

[dependencies]
base64 = "0.22"
blake3 = "1"
byteorder = "1"
chrono = "0.4"
crc32fast = "1"
crossbeam-channel = "0.5"
ctrlc = "3"
hex = "0.4"
rmpv = "1"
serde = { version = "1", features = ["derive"] }
serde_json = "1"
tiny_http = "0.12"
ureq = "2"
zstd = "0.13"
