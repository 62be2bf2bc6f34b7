[package]
name = "solrcopy"
version = "0.1.0"
edition = "2021"
publish = false

[dependencies]
chrono = "*"
clap = { version = "*", features = ["derive", "env"] }
clap_complete = "*"
clap_mangen = "*"
crossbeam-channel = "*"
crossbeam-utils = "*"
ctrlc = "*"
glob = "*"
indicatif = "*"
log = "*"
simplelog = "*"
ureq = "*"
url = "*"
zip = "*"
