[package]
name = "cuc"
version = "0.1.0"
edition = "2021"
publish = false

[dependencies]
anyhow = "*"
base64 = "*"
clap = { version = "*", features = ["derive"] }
clap_usage = "*"
kdl = "*"
tera = "*"
which = "*"
winsplit = "*"
