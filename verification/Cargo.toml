[package]
name = "arm64_unwind"
version = "0.1.0"
edition = "2021"
publish = false

[dependencies]
minidump = "=0.9.6"

[dev-dependencies]
test-assembler = "=0.1.6"
