[package]
name = "koshelf"
version = "0.1.0"
edition = "2021"
publish = false

[dependencies]
actix-cors = "=0.7.2"
actix-files = "=0.7.2"
actix-web = "=4.18.1"
anyhow = "=1.0.104"
chrono = { version = "=0.4.45", features = ["unstable-locales"] }
chrono-tz = "0.10"
clap = { version = "=4.6.7", features = ["derive"] }
directories = "=6.0.0"
env_logger = "=0.11.11"
fluent = "=0.17.0"
icu_displaynames = "=0.11.2"
icu_locid = "=1.4.0"
indicatif = "=0.18.6"
log = "=0.4.34"
md5 = "=0.8.1"
once_cell = "=1.21.4"
regex = "=1.13.1"
rusqlite = { version = "0.32", features = ["bundled"] }
serde = { version = "=1.0.229", features = ["derive"] }
serde_json = "=1.0.154"
tempfile = "=3.27.0"
tokio = { version = "=1.54.1", features = ["rt-multi-thread", "macros", "time"] }
unic-langid = "=0.9.6"
walkdir = "=2.5.0"
zip = { version = "2", default-features = false, features = ["deflate"] }
