[package]
name = "treesize"
version = "0.1.0"
edition = "2021"
publish = false

[dependencies]
async-compression = { version = "0.3", features = ["tokio", "gzip", "brotli"] }
async-recursion = "1"
colored = "2"
futures = "0.3"
humansize = "1"
once_cell = "1"
tokio = { version = "1", features = ["fs", "io-util", "macros", "rt"] }
wax = "0.5"
