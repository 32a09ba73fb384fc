[package]
name = "hoard"
version = "0.1.0"
edition = "2021"
publish = false

[dependencies]
anyhow = "1"
atty = "0.2"
colored = "2"
crossbeam-channel = "0.5"
directories = "*"
globset = "0.4"
gpgme = "*"
ignore = "0.4"
libc = "0.2"
num_cpus = "1"
once_cell = "1"
rand = "0.8"
regex = "1"
secstr = "*"
serde = { version = "1", features = ["derive"] }
serde_json = "1"
serde_yaml = "0.8"
structopt = "0.3"
syntect = { version = "4", default-features = false, features = ["default-fancy"] }
thiserror = "1"
toml = "0.5"
tracing = "0.1"
tracing-subscriber = { version = "0.3", features = ["env-filter"] }
uuid = { version = "0.8", features = ["v4"] }
zeroize = "1"
