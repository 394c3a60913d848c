[package]
name = "jirs_board"
version = "0.1.0"
edition = "2021"
publish = false

[dependencies]
bincode = "=1.3.3"
serde = { version = "=1.0.229", features = ["derive"] }
seed = "=0.9.2"
clap = "2"
glob = "0.3"
notify = "4"
