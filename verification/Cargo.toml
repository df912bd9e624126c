[package]
name = "with_locals"
version = "0.1.0"
edition = "2021"
publish = false

[dependencies]
syn = { version = "1", features = ["full", "visit-mut", "extra-traits"] }
quote = "1"
proc-macro2 = "1"
func_wrap = "*"
