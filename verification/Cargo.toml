[package]
name = "batch_image_resizer"
version = "0.1.0"
edition = "2021"
publish = false

[dependencies]
image = "0.23"
rand = "0.7"
num_cpus = "1"
async-std = "1"
libc = "0.2"
mozjpeg-sys = "*"
nfd = "0.0.4"
web-view = "0.7"
