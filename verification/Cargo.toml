[package]
name = "innerfs"
version = "0.1.0"
edition = "2021"
publish = false

[dependencies]
aes-gcm = "0.10"
pbkdf2 = "0.12"
sha2 = "0.10"
hmac-sha512 = "1"
flate2 = "1"
serde = { version = "1", features = ["derive"] }
serde_json = "1"
serde_yml = "*"
anyhow = "1"
clap = { version = "4", features = ["derive"] }
log = "0.4"
env_logger = "0.11"
tar = "0.4"
zip = "*"
libc = "0.2"
aws-sdk-s3 = "*"
aws-types = "*"
tokio = { version = "1", features = ["rt", "time", "net"] }

[dev-dependencies]
hex = "0.4"
