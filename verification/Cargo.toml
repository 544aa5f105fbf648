[package]
name = "cpi_sync"
version = "0.1.0"
edition = "2021"
publish = false

[dependencies]
base64 = "0.13"
clap = { version = "4", features = ["derive"] }
crossterm = "*"
futures = "0.3"
regex = "1"
remove_dir_all = "*"
reqwest = { version = "0.12", default-features = false, features = ["json", "rustls-tls"] }
rpassword = "*"
serde = { version = "1", features = ["derive"] }
serde_json = "1"
tokio = { version = "1", features = ["full"] }
zip = "*"
