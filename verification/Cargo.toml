[package]
name = "commit_extractor"
version = "0.1.0"
edition = "2021"
publish = false

[dependencies]
anyhow = "*"
csv = "*"
git2 = { version = "*", default-features = false }
indicatif = "*"
log = "*"
pretty_env_logger = "*"
structopt = "*"
