[package]
name = "rustface_jni"
version = "0.1.0"
edition = "2021"
publish = false

[dependencies]
image = "0.22"
md5 = "0.7"
rustface = "0.1"
jni = "0.14"
android_logger = "0.8"
log = "0.4"
lazy_static = "1"
