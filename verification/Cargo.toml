[package]
name = "rustc_codegen_cranelift"
version = "0.1.0"
edition = "2021"
publish = false

[dependencies]
byteorder = "1"
gimli = "0.17.0"
object = { version = "0.36", features = ["write"] }
faerie = "0.16"
cranelift = "0.68.0"
cranelift-module = "0.68.0"
cranelift-simplejit = "0.68.0"
