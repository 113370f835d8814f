[package]
name = "polysynth"
version = "0.1.0"
edition = "2021"
publish = false

[dependencies]
wmidi = "4"
cpal = "0.13"
midir = "0.7"
anyhow = "1"
log = "0.4"
simple_logger = "1"
structopt = "0.3"
gag = "1"
