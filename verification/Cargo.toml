[package]
name = "ecma_lexer"
version = "0.1.0"
edition = "2021"
publish = false

[dependencies]
unicode-xid = "0.2"
swc_atoms = "*"
swc_common = "*"
