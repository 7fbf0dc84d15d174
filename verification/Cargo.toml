[package]
name = "cerberus_agent"
version = "0.1.0"
edition = "2021"
publish = false

[dependencies]
lofty = "=0.22.4"
notify = "=8.2.1"
serde = { version = "1", features = ["derive"] }
serde_json = "1"
tiny_http = "=0.12.0"
ureq = { version = "2", features = ["json"] }
urlencoding = "=2.1.3"
