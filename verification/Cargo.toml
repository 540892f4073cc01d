[package]
name = "debian-analyzer"
version = "0.1.0"
edition = "2021"
publish = false

[dependencies]
breezyshim = "*"
chrono = { version = "*", features = ["serde"] }
clap = { version = "*", features = ["derive"] }
configparser = "*"
deb822-lossless = "*"
debian-changelog = "*"
debian-control = "*"
debversion = "*"
distro-info = "*"
env_logger = "*"
lazy-regex = "*"
lazy_static = "*"
log = "*"
makefile-lossless = "*"
regex = "*"
semver = "*"
serde = { version = "*", features = ["derive"] }
serde_json = "*"
toml_edit = "*"
url = "*"

[dev-dependencies]
tempfile = "*"
