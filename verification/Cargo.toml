[package]
name = "cdoc"
version = "0.1.0"
edition = "2021"
publish = false

[dependencies]
anyhow = "1"
base64-simd = "0.8"
console = "0.15"
image = { version = "0.24", default-features = false, features = ["jpeg", "png"] }
indicatif = { version = "0.17", features = ["rayon"] }
lazy_static = "1"
linked-hash-map = "0.5"
pulldown-cmark = { version = "0.9", default-features = false }
rayon = "1"
rhai = { version = "1", features = ["serde"] }
serde = { version = "1", features = ["derive"] }
serde_json = "1"
syntect = { version = "5", default-features = false, features = ["default-fancy"] }
tera = { version = "1", default-features = false }
thiserror = "1"
typetag = "0.2"
