[package]
name = "sharedmem"
version = "0.1.0"
edition = "2021"

[dependencies]
memmap = "0.7"
