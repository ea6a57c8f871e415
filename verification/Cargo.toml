[package]
name = "froglang_core"
version = "0.1.0"
edition = "2021"
publish = false

[dependencies]
cranelift-codegen = "0.135"
cranelift-frontend = "0.135"
cranelift-jit = "0.135"
cranelift-module = "0.135"
cranelift-native = "0.135"
rustyline = "*"
