[package]
name = "datarender"
version = "0.1.0"
edition = "2021"
publish = false

[dependencies]
glium = "0.27"
glam = "0.9"
ringbuf = "0.2"
tinyfiledialogs = "3"
web-view = "0.7"
