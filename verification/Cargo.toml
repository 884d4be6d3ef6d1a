[package]
name = "oso"
version = "0.1.0"
edition = "2021"
publish = false

[dependencies]
anyhow = "=1.0.104"
log = "=0.4.35"
uefi = "=0.41.0"
ureq = "=3.5.1"
html5ever = "=0.39.0"
markup5ever_rcdom = "=0.39.0"
syn = { version = "=3.0.9", features = ["full"] }
quote = "=1.0.47"
proc-macro2 = "=1.0.107"
colored = "=3.1.1"
itertools = "=0.15.0"
