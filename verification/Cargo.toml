[package]
name = "flexaudio"
version = "0.1.0"
edition = "2021"
publish = false

[dependencies]
rtrb = "0.3"
ringbuf = "0.4"
rubato = "*"
hound = "3"
clap = { version = "4", features = ["derive"] }
ctrlc = "3"
cpal = "*"
pipewire = "*"
thiserror = "*"
ort = { version = "2.0.0-rc.10", default-features = false, features = ["std", "load-dynamic"] }
napi = { version = "2", features = ["napi6"] }
napi-derive = "2"
pyo3 = { version = "*", features = ["abi3-py39"] }
