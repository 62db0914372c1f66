[package]
name = "comms_rs"
version = "0.1.0"
edition = "2021"
publish = false

[dependencies]
byteorder = "=1.5.0"
num = "=0.2.1"
num-traits = "=0.2.19"
rustfft = "=3.0.1"
rand = "=0.6.5"
crossbeam = "=0.7.3"
crossbeam-channel = "=0.3.9"
hashbrown = "=0.1.8"
uuid = { version = "=0.7.4", features = ["v4"] }
bincode = "=1.3.3"
serde = { version = "=1.0.229", features = ["derive"] }
rayon = "=1.12.0"
rtplot = "=0.2.0"
rtlsdr = "*"
zmq = "*"

[dev-dependencies]
assert_approx_eq = "=1.1.0"
