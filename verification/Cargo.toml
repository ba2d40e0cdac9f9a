[package]
name = "rmc"
version = "0.1.0"
edition = "2021"

[dependencies]
argh = "0.1"
