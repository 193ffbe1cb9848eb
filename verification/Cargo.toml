[package]
name = "upnp_parser"
version = "0.1.0"
edition = "2021"
publish = false

[dependencies]
anyhow = "1"
elementtree = "1.2"
surf = { version = "2.3", default-features = false, features = ["h1-client-rustls"] }
url = "2"
xml-rs = "0.8"
