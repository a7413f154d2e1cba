[package]
name = "ssdp_client"
version = "0.1.0"
edition = "2021"
publish = false

[dependencies]
tokio = { version = "*", default-features = false, features = ["net", "time"] }
futures-core = "*"
genawaiter = { version = "*", default-features = false, features = ["futures03"] }
