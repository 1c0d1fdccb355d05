[package]
name = "pod_list"
version = "0.1.0"
edition = "2021"
publish = false

[dependencies]
indexmap = "2"
log = "0.4"
