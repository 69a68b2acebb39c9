[package]
name = "octopod"
version = "0.1.0"
edition = "2021"
publish = false

[dependencies]
url = "=2.5.8"
rss = { version = "=2.1.2", default-features = false }
mime = "=0.3.17"
chrono = { version = "=0.4.45", default-features = false, features = ["std", "serde"] }
clap = "=4.6.7"
dotenv = "=0.15.0"
diesel = { version = "=2.3.14", features = ["sqlite", "chrono"] }
rusqlite = "=0.32.1"
reqwest = { version = "=0.12.28", default-features = false, features = ["blocking", "rustls-tls"] }
curl = "=0.4.51"
pbr = "=1.1.1"
serde = { version = "=1.0.229", features = ["derive"] }
