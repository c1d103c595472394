[package]
name = "clap_repl"
version = "0.1.0"
edition = "2021"
publish = false

[dependencies]
shlex = "1.3"
clap = "4"
reedline = "*"
console = "0.15"
nu-ansi-term = "*"
