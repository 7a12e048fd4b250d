[package]
name = "ijssel"
version = "0.1.0"
edition = "2021"
publish = false

[dependencies]
clap = "=2.34.0"
libc = "=0.2.191"
llvm-sys = { version = "=100.2.4", features = ["no-llvm-linking"] }
