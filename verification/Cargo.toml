[package]
name = "runner"
version = "0.1.0"
edition = "2021"
publish = false

[dependencies]
anyhow = "1"
async-trait = "0.1"
chrono = "0.4"
colored = "2"
itertools = "0.10"
log = "0.4"
nix = "0.22"
prost = "0.8"
serde = { version = "1", features = ["derive"] }
structopt = "0.3"
tokio = { version = "1", features = ["full"] }
tonic = "0.5"
