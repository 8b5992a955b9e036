[package]
name = "scripts_rs"
version = "0.1.0"
edition = "2021"
publish = false

[dependencies]
regex = "*"
git2 = { version = "*", default-features = false }
raur = "*"
tokio = { version = "*", features = ["rt-multi-thread", "macros"] }
clap = { version = "*", features = ["derive"] }
log = "*"
fern = "*"
