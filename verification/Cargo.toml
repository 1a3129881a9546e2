[package]
name = "fido2ble"
version = "0.1.0"
edition = "2021"
publish = false

[dependencies]
bluer = { version = "*", features = ["bluetoothd"] }
futures = "0.3"
log = "0.4"
log4rs = "1"
tokio = { version = "1", features = ["rt", "macros", "sync", "time"] }
uhid-virt = "*"
