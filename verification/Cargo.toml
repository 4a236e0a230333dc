[package]
name = "archive"
version = "0.1.0"
edition = "2021"
publish = false

[dependencies]
anyhow = "=1.0.104"
async-compression = { version = "=0.4.52", features = ["gzip", "futures-io"] }
async-fs = "=2.2.0"
async-tar = { version = "=0.5.1", default-features = false }
async_zip = { version = "=0.0.18", features = ["deflate", "deflate64"] }
futures = "=0.3.34"
itertools = "=0.14.0"
log = "=0.4.35"
sha2 = "=0.10.9"
smol = "=2.0.2"
tempfile = "=3.27.0"
