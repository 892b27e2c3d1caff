[package]
name = "multitask_server"
version = "0.1.0"
edition = "2021"
publish = false

[dependencies]
async-broadcast = "0.7"
futures = "0.3"
libc = "0.2"
rand = "0.9"
smol = "2"
