[package]
name = "fg_editor"
version = "0.1.0"
edition = "2021"
publish = false

[dependencies]
imgui = "0.7"
