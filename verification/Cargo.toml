[package]
name = "jitter"
version = "0.1.0"
edition = "2021"
publish = false

[dependencies]
rand_core = { version = "=0.1.0-pre.0", features = ["std"] }
libc = "0.2"
winapi = { version = "0.3", features = ["profileapi", "winnt"] }
