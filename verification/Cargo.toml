[package]
name = "pkgaudit"
version = "0.1.0"
edition = "2021"
publish = false

[dependencies]
clap = { version = "4", features = ["derive"] }
libc = "0.2"
md5 = "0.7"
memmap2 = "0.9"
rayon = "1"
regex = "1"
sha2 = "0.10"
unix_mode = "0.1"
