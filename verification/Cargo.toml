[package]
name = "midi_file_performer"
version = "0.1.0"
edition = "2021"
publish = false

[dependencies]
crossbeam-channel = "*"
midly = "*"
