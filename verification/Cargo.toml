[package]
name = "hypatia"
version = "0.1.0"
edition = "2021"
publish = false

[dependencies]
goblin = "*"
x86 = "*"
multiboot = "*"
