[package]
name = "icon_resolver"
version = "0.1.0"
edition = "2021"
publish = false

[dependencies]
argh = "*"
linicon = "*"
prettytable-rs = "*"
