[package]
name = "g8_kernel"
version = "0.1.0"
edition = "2021"
publish = false

[dependencies]
crossbeam-queue = "=0.3.14"
x86_64 = "=0.14.13"
spin = "=0.12.3"
lazy_static = "=1.5.1"
conquer-once = "=0.4.0"
futures-util = "=0.3.34"
pc-keyboard = "=0.9.0"
pic8259_simple = "=0.2.0"
volatile = "=0.2.7"
