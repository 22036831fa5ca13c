[package]
name = "librustlet"
version = "0.1.0"
edition = "2021"
publish = false

[dependencies]
querystring = "1.1.0"
rand = "0.8"
lazy_static = "1.4"
clap = { version = "2.34", features = ["yaml"] }
hyper = "0.10"
mime_multipart = "0.6.1"
native-tls = "0.2"
