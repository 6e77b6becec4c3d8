[package]
name = "belong"
version = "0.1.0"
edition = "2021"
publish = false

[dependencies]
toml = "*"
serde_json = "*"
tera = "*"
pulldown-cmark = "*"
walkdir = "*"
chrono = "*"
anyhow = "*"
log = "*"
femme = "*"
casual = "*"
open = "*"
structopt = "*"
