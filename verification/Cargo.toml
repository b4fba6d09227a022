[package]
name = "spark"
version = "0.1.0"
edition = "2021"

[dependencies]
anyhow = "1"
base32 = "0.4"
boolinator = "2"
clap = { version = "4", features = ["cargo"] }
comrak = { version = "*", default-features = false }
console = "0.15"
csv = "1"
dotenvy = "0.15"
rand = "0.8"
regex = "1"
rusqlite = "*"
thiserror = "1"
xdg = "2"
