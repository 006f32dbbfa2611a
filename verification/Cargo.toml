[package]
name = "wamex_object"
version = "0.1.0"
edition = "2021"
publish = false

[dependencies]
anyhow = "1"
cranelift-bitset = "0.130.2"
cranelift-entity = "0.130.2"
hex = "0.4"
itertools = "*"
leb128fmt = "0.1"
rustc-demangle = "0.1"
smallvec = "1"
wasm-encoder = "0.249.0"
wasmparser = "0.249.0"
