[package]
name = "cornflakes"
version = "0.1.0"
edition = "2021"
publish = false

[dependencies]
rscam = "0.5"
log = "0.4"
simple-logging = "2"
