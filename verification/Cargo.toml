[package]
name = "topstitch"
version = "0.1.0"
edition = "2021"
publish = false

[dependencies]
fixedbitset = "=0.5.7"
indexmap = "=2.14.2"
num-bigint = "=0.4.8"
regex = "1"
slang-rs = "=0.24.0"
