[package]
name = "arena_bench"
version = "0.1.0"
edition = "2021"
publish = false

[dependencies]
bumpalo = { version = "3", features = ["collections"] }
core_affinity = "0.8"
libc = "0.2"
mimalloc = "0.1"
num_cpus = "1"
spin = "0.9"
windows-sys = { version = "0.59", features = ["Win32_System_Memory"] }
