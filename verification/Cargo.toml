[package]
name = "shm_ipc"
version = "0.1.0"
edition = "2021"
publish = false

[dependencies]
byteorder = "=1.5.0"
libc = "=0.2.191"
ndk = { version = "=0.9.0", features = ["api-level-26"] }
