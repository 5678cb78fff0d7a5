[package]
name = "kestrel_connector"
version = "0.5.0"
edition = "2021"
publish = false

[dependencies]
kestrel-chartkit = "*"
serde = { version = "1", features = ["derive"] }
ureq = { version = "3", features = ["json"] }

[dev-dependencies]
serde_json = "1"
