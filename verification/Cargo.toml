[package]
name = "tdisk"
version = "0.1.0"
edition = "2021"
publish = false

[dependencies]
base64 = "=0.13.1"
rust-crypto = "=0.2.36"
httpdate = "=1.0.3"
quick-xml = "=0.22.0"
serde = { version = "=1.0.229", features = ["derive"] }
serde_yaml = "=0.8.26"
structopt = "=0.3.26"
indicatif = "=0.16.2"
console = "=0.16.6"
once_cell = "=1.21.4"
reqwest = "=0.11.27"
tokio = { version = "=1.54.1", features = ["macros", "rt-multi-thread"] }
bytes = "=1.12.1"
