[package]
name = "nixos_appstream_generator"
version = "0.1.0"
edition = "2021"
publish = false

[dependencies]
xmltree = { version = "0.10", features = ["attribute-order"] }
image = { version = "0.24", default-features = false, features = ["png"] }
curl = "0.4"
owo-colors = { version = "3", features = ["supports-colors"] }
clap = { version = "3", features = ["derive"] }
serde = { version = "1", features = ["derive"] }
serde_json = "1"
sysinfo = "0.29"
