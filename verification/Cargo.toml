[package]
name = "fish_in_a_jit"
version = "0.1.0"
edition = "2021"
publish = false

[dependencies]
libc = "0.2"
log = "0.4"
serde = { version = "1", features = ["derive"] }
serde_yaml = "0.9"
winapi = "0.2"
kernel32-sys = "0.2"
