[package]
name = "klldap"
version = "0.1.0"
edition = "2021"
publish = false

[dependencies]
base64 = "=0.22.1"
bincode = "1"
chrono = { version = "=0.4.45", default-features = false, features = ["alloc", "std", "now", "serde"] }
image = { version = "=0.25.10", default-features = false, features = ["jpeg", "png", "bmp"] }
uuid = { version = "=1.29.0", features = ["v3"] }
ldap3_proto = "=0.9.0"
serde = { version = "=1.0.229", features = ["derive"] }
serde_json = "=1.0.154"
toml = "=1.1.8"
