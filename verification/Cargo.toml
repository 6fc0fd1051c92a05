[package]
name = "faster2"
version = "0.3.0"
edition = "2021"
publish = false

[dependencies]
clap = "3"
colored = "2"
human-repr = "1"
indicatif = "0.17"
kseq = "*"
prettytable-rs = "0.10"
serde_json = "1"
