[package]
name = "debuggee"
version = "0.1.0"
edition = "2021"
publish = false

[dependencies]
object = "0.20"
rustc-demangle = "0.1"
nix = "0.19"
libc = "0.2"
procfs = { version = "0.9", default-features = false }
lazy_static = "1.4"
