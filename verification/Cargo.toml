[package]
name = "beanstalkd"
version = "1.13.0"
edition = "2021"
publish = false

[dependencies]
base64 = "0.22"
libc = "0.2"
nix = { version = "0.29", features = ["user"] }
rand = "0.8"
rustyline = "14"
serde = { version = "1", features = ["derive"] }
serde_json = "1"
tokio = { version = "1", features = ["full"] }
