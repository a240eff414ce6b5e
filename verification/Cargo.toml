[package]
name = "tic"
version = "0.1.0"
edition = "2021"
publish = false

[dependencies]
clocksource = "=0.4.0"
fnv = "=1.0.7"
mio = "=0.6.23"
mpmc = "=0.1.6"
tiny_http = "=0.12.0"
