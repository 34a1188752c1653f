[package]
name = "rusicsetup"
version = "0.1.0"
edition = "2021"
publish = false

[dependencies]
md-5 = "0.10"
serde_json = "1"
rusqlite = "*"
walkdir = "2"
lofty = "*"
image = { version = "*", default-features = false, features = ["jpeg", "png", "webp"] }
filesize = "0.2"
dotenv = "0.15"
env_logger = "*"
log = "0.4"
num_cpus = "1"
threadpool = "1"
