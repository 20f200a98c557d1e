[package]
name = "oxis"
version = "0.1.0"
edition = "2021"
publish = false

[dependencies]
shlex = "*"
clap = { version = "*", features = ["derive"] }
anyhow = "*"
serde = { version = "*", features = ["derive"] }
serde_json = "*"
reedline = "*"
rand = "*"
rand_distr = "*"
rayon = "*"
