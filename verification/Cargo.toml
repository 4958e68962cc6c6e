[package]
name = "cbor_tool"
version = "0.1.0"
edition = "2021"
publish = false

[dependencies]
base64 = "=0.13.1"
cbor = "=0.4.1"
clap = "=2.34.0"
json = "=0.12.4"
