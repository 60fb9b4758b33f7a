[package]
name = "bunnyhopfix"
version = "2.0.0"
edition = "2021"
publish = false

[dependencies]
bzip2 = "0.6"
libc = "0.2"
sha1 = "0.10"
tracing = "0.1"
tracing-subscriber = { version = "0.3", features = ["env-filter"] }
