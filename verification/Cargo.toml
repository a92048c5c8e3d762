[package]
name = "gpm"
version = "0.1.0"
edition = "2021"
publish = false

[dependencies]
base64 = "0.13"
clap = "2"
console = "0.15"
crypto-hash = "0.3"
dirs = "5"
dotenv = "0.15"
err-derive = "0.3"
flate2 = "1"
git2 = "0.19"
indicatif = "0.15"
log = "0.4"
pretty_env_logger = "0.5"
reqwest = { version = "0.11", features = ["blocking"] }
rpassword = "5"
semver = "1"
ssh2 = "0.9"
tar = "0.4"
tempfile = "3"
url = "2"
zeroize = "1"
