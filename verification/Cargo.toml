[package]
name = "cache_worker"
version = "0.1.0"
edition = "2021"
publish = false

[dependencies]
zstd = "*"
libc = "*"
errno = "*"
log = "*"
spin = "*"
file-per-thread-logger = "*"
