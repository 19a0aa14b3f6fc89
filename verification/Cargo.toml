[package]
name = "dra-cli"
version = "0.1.0"
edition = "2021"
publish = false

[dependencies]
clap = "=4.6.7"
regex = "=1.13.1"
rusqlite = "=0.32.1"
