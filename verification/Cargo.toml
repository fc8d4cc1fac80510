[package]
name = "procshot_server"
version = "0.1.0"
edition = "2021"
publish = false

[dependencies]
procfs = "0.5"
clap = "2"
hostname = "0.1"
