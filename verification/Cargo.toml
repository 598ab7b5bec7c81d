[package]
name = "gcsf"
version = "0.3.0"
edition = "2021"
publish = false

[dependencies]
url = "2"
urlencoding = "2"
fuser = { version = "*", default-features = false }
libc = "0.2"
log = "0.4"
pretty_env_logger = "0.5"
clap = { version = "4", features = ["derive"] }
ctrlc = "3"
serde = { version = "1", features = ["derive"] }
serde_json = "1"
time = "0.3"
xdg = "*"
reqwest = { version = "0.12", default-features = false, features = ["blocking", "json", "rustls-tls"] }
lru_time_cache = "0.11"
config = { version = "*", default-features = false, features = ["toml"] }
