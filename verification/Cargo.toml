[package]
name = "moonbuild"
version = "0.1.0"
edition = "2021"
publish = false

[dependencies]
clap = { version = "*", features = ["derive"] }
console = "*"
dotenvy = "*"
indicatif = "*"
num_cpus = "*"
starbase_styles = "*"
starbase_utils = { version = "*", features = ["glob"] }
tokio = { version = "*", features = ["full"] }
