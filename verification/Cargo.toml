[package]
name = "routerify"
version = "0.1.0"
edition = "2021"
publish = false

[dependencies]
regex = "1"
hyper = "1"
http-body = "1"
percent-encoding = "2"
