[package]
name = "grandma"
version = "0.1.0"
edition = "2021"
publish = false

[dependencies]
pointcloud = "0.1"
rand = "0.7"
smallvec = "1"
