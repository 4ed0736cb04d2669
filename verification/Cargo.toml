[package]
name = "mapping_viewer"
version = "0.1.0"
edition = "2021"
publish = false

[dependencies]
iced = "0.3"
iced_native = "0.4"
structopt = "0.3"
