[package]
name = "steam_placeholder"
version = "0.1.0"
edition = "2021"
publish = false

[dependencies]
clap = "2"
open = "1"
skim = "0.8"
steamy-vdf = "0.2"
