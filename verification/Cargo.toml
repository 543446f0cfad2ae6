[package]
name = "zc"
version = "0.1.0"
edition = "2021"
publish = false

[dependencies]
soup = "=0.5.1"
html5ever = "=0.22.5"
colored = "=3.1.1"
serde_json = "=1.0.154"
ureq = { version = "=2.12.1", default-features = false }
ifaces = "=0.1.0"
