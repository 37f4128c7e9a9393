[package]
name = "snippet_render"
version = "0.1.0"
edition = "2021"
publish = false

[dependencies]
synoptic = "1"
rustfmt-wrapper = "*"
quote = "1"
