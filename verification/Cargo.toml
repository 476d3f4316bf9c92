[package]
name = "hidlights"
version = "0.1.0"
edition = "2021"
publish = false

[dependencies]
bitvec = "=1.1.1"
hidapi = { version = "=2.6.7", default-features = false, features = ["linux-native-basic-udev"] }
hidparser = "=1.0.4"
hut = "=0.6.0"
thiserror = "=2.0.21"
