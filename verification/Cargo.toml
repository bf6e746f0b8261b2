[package]
name = "mdbook_i18n"
version = "0.1.0"
edition = "2021"
publish = false

[dependencies]
anyhow = "=1.0.104"
chrono = "=0.4.45"
env_logger = "=0.11.11"
log = "=0.4.34"
mdbook = { version = "=0.4.52", default-features = false }
toml = "=0.5.11"
