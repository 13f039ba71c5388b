[package]
name = "replay_proxy"
version = "0.1.0"
edition = "2021"
publish = false

[dependencies]
actix-web = "4"
awc = "3"
bytes = "1"
clap = "3"
env_logger = "0.10"
futures = "0.3"
futures-util = "0.3"
log = "0.4"
num_cpus = "1"
tokio = { version = "1", features = ["macros", "rt-multi-thread", "net", "io-util", "sync"] }
url = "2"
