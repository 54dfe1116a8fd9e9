[package]
name = "logic_circuit_simulator"
version = "0.1.0"
edition = "2021"
publish = false

[dependencies]
cfg-if = "*"
console_log = "*"
log = "*"
simplelog = "*"
wasm-bindgen = "*"
