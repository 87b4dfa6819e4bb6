[package]
name = "conll_tools"
version = "0.1.0"
edition = "2021"
publish = false

[dependencies]
regex = "=1.13.1"
siphasher = "=1.0.4"
xml-rs = "=1.0.0"
clap = "=2.34.0"
conllu = "=0.8.0"
conllx = "=0.12.1"
udgraph = "=0.8.0"
stdinout = "=0.4.1"
flate2 = "=1.1.10"
getopts = "=0.2.24"
thiserror = "=1.0.69"
