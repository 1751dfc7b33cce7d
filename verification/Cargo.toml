[package]
name = "trovato_site"
version = "0.1.0"
edition = "2021"
publish = false

[dependencies]
serde_json = "1"
serde_yml = "*"
syntect = { version = "5", default-features = false, features = ["default-fancy"] }
pulldown-cmark = { version = "0.13", default-features = false, features = ["html"] }
uuid = { version = "1", features = ["v5"] }
ureq = "3"
