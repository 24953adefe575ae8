[package]
name = "lutim_uploader"
version = "0.1.0"
edition = "2021"
publish = false

[dependencies]
rand = "0.8"
dirs = "*"
inotify = "*"
notify-rust = "4"
clipboard = "0.5"
reqwest = { version = "0.11", default-features = false, features = ["blocking", "multipart"] }
webbrowser = "*"

[dev-dependencies]
serde_json = "1"
