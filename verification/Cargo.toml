[package]
name = "wezel"
version = "0.1.0"
edition = "2021"
publish = false

[dependencies]
anyhow = "1"
serde = { version = "1", features = ["derive"] }
serde_json = "1"
toml = "0.8"
indexmap = { version = "2", features = ["serde"] }
sha2 = "0.10"
hex = "0.4"
dirs = "6"
uuid = { version = "1", features = ["v4", "serde"] }
ureq = { version = "2", features = ["json"] }
log = "0.4"
env_logger = "0.11"
clap = { version = "4", features = ["derive"] }
clap_complete = { version = "4", features = ["unstable-dynamic"] }
figment = { version = "0.10", features = ["toml"] }
whoami = "1"
libc = "0.2"
which = "7"
thiserror = "2"
owo-colors = "4"
schemars = "0.8"
dialoguer = "0.11"
url = "2"
jsonschema = { version = "*", default-features = false }
guppy = "0.17"
