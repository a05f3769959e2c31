[package]
name = "mjpeg_proxy"
version = "0.1.0"
edition = "2021"
publish = false

[dependencies]
clap = "=2.34.0"
env_logger = "=0.7.1"
finally-block = "=0.2.0"
hyper = "=0.13.10"
image = { version = "=0.23.14", default-features = false, features = ["jpeg"] }
lazy_static = "=1.5.1"
log = "=0.4.35"
once_cell = "=1.21.4"
regex = "=1.13.1"
simple-error = "=0.2.3"
tiny_http = "=0.8.2"
tokio = { version = "=0.2.25", features = ["full"] }
url = "=2.5.8"
zmq = "0.10"
