[package]
name = "smartpool"
version = "0.1.0"
edition = "2021"
publish = false

[dependencies]
atomicmonitor = "=0.1.2"
futures = "=0.1.31"
atom = "=0.3.6"
log = "0.4"
monitor = "=0.1.0"
time = "=0.1.45"
stopwatch = "=0.0.7"

[dev-dependencies]
rand = "=0.5.6"
