[package]
name = "url_enumerator"
version = "0.1.0"
edition = "2021"
publish = false

[dependencies]
url = "2"
clap = { version = "4", features = ["derive"] }
clio = { version = "*", features = ["clap-parse"] }
