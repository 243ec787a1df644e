[package]
name = "luajit_pro_helper"
version = "0.1.0"
edition = "2021"
publish = false

[dependencies]
full_moon = "*"
darklua = "*"
stylua = "*"
mlua = { version = "*", features = ["lua54", "vendored"] }
figlet-rs = "*"
