[package]
name = "android-usbser"
version = "0.1.0"
edition = "2021"
publish = false

[dependencies]
nusb = "0.2"
serialport = { version = "4", default-features = false }
log = "0.4"
android-activity = { version = "0.6", features = ["native-activity"] }
android_logger = "*"
jni = "0.21"
jni-min-helper = "*"
