[package]
name = "save_trim"
version = "0.1.0"
edition = "2021"
publish = false

[dependencies]
eyre = "0.6"
libflate = "1"
native-dialog = "0.6"
serde_json = { version = "1", features = ["preserve_order"] }
