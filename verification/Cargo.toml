[package]
name = "adb_input"
version = "0.1.0"
edition = "2021"
publish = false

[dependencies]
anyhow = "1"
chacha20poly1305 = "0.10"
clap = { version = "4", features = ["derive"] }
ctrlc = { version = "3", features = ["termination"] }
evdev = "0.13"
libc = "0.2"
serde_json = "1"
