[package]
name = "mdbook_scientific"
version = "0.1.0"
edition = "2021"
publish = false

[dependencies]
sha2 = "0.10"
nom-bibtex = "0.3"
mdbook = { version = "0.4", default-features = false }
clap = { version = "4", features = ["derive"] }
color-eyre = "0.6"
fs-err = "2"
semver = "1"
serde_json = "1"
thiserror = "1"
which = "4"
pulldown-cmark = "0.9"
pulldown-cmark-to-cmark = "10"
