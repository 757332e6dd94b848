[package]
name = "git-remote-ipgrv"
version = "0.1.0"
edition = "2021"
publish = false

[dependencies]
chrono = "0.4"
fern = "0.7"
flate2 = "1"
git2 = { version = "0.20", default-features = false }
hex = "0.4"
home = "0.5"
lmdb-zero = "0.4"
log = "0.4"
multihash = "=0.8.0"
reqwest = { version = "0.12", default-features = false, features = ["blocking", "multipart"] }
url = "2"
