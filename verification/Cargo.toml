[package]
name = "fcalc"
version = "0.1.0"
edition = "2021"
publish = false

[dependencies]
inkwell = { version = "=0.10.0", features = ["llvm14-0"] }
llvm-sys = { version = "=140.1.3", features = ["prefer-dynamic"] }
rustyline = "=18.0.1"
rustc_apfloat = "=0.2.3+llvm-462a31f5a5ab"
