[package]
name = "bevy_msdf"
version = "0.1.0"
edition = "2021"
publish = false

[dependencies]
owned_ttf_parser = "0.25"
msdfgen = "0.2.1"
thiserror = "1"
