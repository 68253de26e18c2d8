[package]
name = "rustlab"
version = "0.1.0"
edition = "2021"
publish = false

[dependencies]
sha1 = "0.10"
elf_rs = "*"
french-numbers = "*"
ipnet = "2"
clap = { version = "3", features = ["derive"] }
tokio = { version = "1", features = ["full"] }
futures = "0.3"
rayon = "1"
reqwest = { version = "0.11", default-features = false, features = ["blocking", "rustls-tls"] }
parking_lot = "0.12"
syn = { version = "2", features = ["full"] }
quote = "1"
proc-macro2 = "1"
