[package]
name = "dotrs"
version = "0.1.0"
edition = "2021"
publish = false

[dependencies]
aes-gcm = "*"
base64 = "*"
clap = { version = "*", features = ["derive", "env"] }
debounce = "*"
dirs = "*"
duration-string = "*"
env_logger = "*"
handlebars = "*"
ignore = "*"
log = "*"
notify = "*"
serde = { version = "*", features = ["derive"] }
serde_yaml = "*"
thiserror = "*"
yansi = "*"
