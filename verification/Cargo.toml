[package]
name = "cpal_recorder"
version = "0.1.0"
edition = "2021"
publish = false

[dependencies]
cpal = "0.13"
eframe = "0.16"
hound = "3.4"
multiqueue = "0.3"
