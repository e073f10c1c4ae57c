[package]
name = "tlc"
version = "0.1.0"
edition = "2021"
publish = false

[dependencies]
base64 = "*"
calamine = "*"
csv = "*"
dwt = "*"
ffmpeg-next = "*"
image = "*"
libm = "*"
median = "*"
ndarray = "*"
rayon = "*"
serde = { version = "*", features = ["derive"] }
serde_json = "*"
thread_local = "*"
