[package]
name = "akra_hookers"
version = "0.1.0"
edition = "2021"
publish = false

[dependencies]
serde = { version = "1", features = ["derive"] }
serde_json = "1"
sha2 = "0.10"
base64 = "0.22"
hex = "0.4"
toml_edit = "0.22"
url = "2"
uuid = { version = "1", features = ["v4"] }
tempfile = "3"
fs2 = "0.4"
libc = "0.2"
thiserror = "2"
clap = { version = "4", features = ["derive"] }
