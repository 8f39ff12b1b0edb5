[package]
name = "berry"
version = "0.1.0"
edition = "2021"
publish = false

[dependencies]
unicode-width = "0.1"
crossterm = "0.25"
getopts = "0.2"
