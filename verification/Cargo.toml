[package]
name = "lorem_ipsumlike"
version = "0.1.0"
edition = "2021"

[dependencies]
spellcheck = "*"
rand = "*"
anyhow = "1"
clap = { version = "4", features = ["derive"] }
tokio = { version = "1", features = ["macros", "rt-multi-thread"] }
