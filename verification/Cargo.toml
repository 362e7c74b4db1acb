[package]
name = "scratch-test-interpreter"
version = "0.1.0"
edition = "2021"
publish = false

[dependencies]
smodel = "*"
rand = "*"
thiserror = "*"
derive-getters = "*"
