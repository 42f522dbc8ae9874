[package]
name = "tds_command"
version = "0.1.0"
edition = "2021"
publish = false

[dependencies]
bytes = "1"
asynchronous-codec = "0.6"
enumflags2 = "0.7"
futures-util = "0.3"
