[package]
name = "termux_packaging"
version = "0.1.0"
edition = "2021"
publish = false

[dependencies]
ar = "=0.9.0"
libflate = "=2.3.2"
rust-lzma = "=0.6.0"
md5 = "=0.8.1"
tar = "=0.4.46"
zip = "=8.6.0"
walkdir = "=2.5.0"
structopt = "=0.3.26"
reqwest = { version = "=0.13.5", default-features = false, features = ["blocking"] }
