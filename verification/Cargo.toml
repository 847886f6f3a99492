[package]
name = "serial_flasher"
version = "0.1.0"
edition = "2021"
publish = false

[dependencies]
crc = "=3.4.0"
serialport = { version = "=4.10.1", default-features = false }
structopt = "=0.3.26"
uftwo = "=0.3.0"

[dev-dependencies]
cobs = "=0.5.1"
