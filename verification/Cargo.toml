[package]
name = "jprops"
version = "0.1.0"
edition = "2021"
publish = false

[dependencies]
java-properties = "*"
encoding = "*"
encoding_rs = "*"
