[package]
name = "pix"
version = "0.1.0"
edition = "2021"
publish = false

[dependencies]
bincode = "1"
boolinator = "2"
clap = { version = "2", default-features = false }
dirs = "*"
env_logger = { version = "*", default-features = false }
futures = { version = "0.3", features = ["thread-pool"] }
image = { version = "*", default-features = false, features = ["jpeg", "png"] }
log = "0.4"
num_cpus = "1"
piston_window = "*"
rocksdb = { version = "*", default-features = false }
serde = { version = "1", features = ["derive"] }
walkdir = "2"
