[package]
name = "aysinvi"
version = "0.1.0"
edition = "2021"
publish = false

[dependencies]
distance = "*"
pest = "*"
pest_derive = "*"
quickscope = "*"
