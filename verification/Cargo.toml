[package]
name = "harness65"
version = "0.1.0"
edition = "2021"
publish = false

[dependencies]
anyhow = "=1.0.104"
base64 = "=0.13.1"
crc = "=1.8.1"
fs2 = "=0.4.3"
outer_cgi = "=0.3.1"
serde = "=1.0.229"
serde_derive = "=1.0.229"
serde_json = "=1.0.151"
serial = "=0.4.0"
w65c02s = "=0.9.2"
