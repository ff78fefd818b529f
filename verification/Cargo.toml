[package]
name = "dylint"
version = "0.1.0"
edition = "2021"
publish = false

[dependencies]
anstyle = "=1.0.14"
anyhow = "=1.0.104"
atty = "=0.2.14"
cargo_metadata = "=0.23.1"
cargo-platform = "=0.3.3"
chrono = "=0.4.45"
dunce = "=1.0.5"
fs_extra = "=1.3.0"
git2 = { version = "=0.21.0", default-features = false }
glob = "=0.3.4"
heck = "=0.5.0"
home = "=0.5.12"
if_chain = "=1.0.3"
lazy_static = "=1.5.1"
log = "=0.4.35"
once_cell = "=1.21.4"
rewriter = "=2.1.0"
rustc-stable-hash = "=0.1.2"
semver = "=1.0.28"
serde = { version = "=1.0.229", features = ["derive"] }
serde_json = "=1.0.154"
serde-untagged = "=0.1.9"
syntect = { version = "=5.3.0", default-features = false, features = ["default-syntaxes", "parsing", "regex-fancy"] }
tempfile = "=3.27.0"
toml = "=1.1.8"
toml_edit = "=0.25.18"
url = "=2.5.8"
walkdir = "=2.5.0"
