[package]
name = "blog_os_fb"
version = "0.1.0"
edition = "2021"
publish = false

[dependencies]
crossbeam-queue = "=0.3.14"
x86_64 = { version = "=0.15.5", default-features = false, features = ["instructions"] }
conquer-once = "=0.4.0"
futures-util = "=0.3.34"
spinning_top = "=0.4.0"
ps2-mouse = "=0.1.4"
