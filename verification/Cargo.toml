[package]
name = "arceos"
version = "0.1.0"
edition = "2021"
publish = false

[dependencies]
memory_addr = "*"
fdt-rs = "*"
spin = "*"
aarch64-cpu = "*"
tock-registers = "*"
syn = { version = "1", features = ["full"] }
quote = "1"
proc-macro2 = "1"
