[package]
name = "zboxfs"
version = "0.1.0"
edition = "2021"
publish = false

[dependencies]
jni = "0.14"
log = "0.4"
android_logger = "0.8"
