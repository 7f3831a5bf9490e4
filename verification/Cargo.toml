[package]
name = "name_cp"
version = "0.1.0"
edition = "2021"
publish = false

[dependencies]
clap = { version = "*", features = ["derive"] }
ffprobe = "*"
flexi_logger = "*"
inquire = "*"
lexical-sort = "*"
log = "*"
paris = "*"
strsim = "*"
