[package]
name = "typst_lua"
version = "0.1.0"
edition = "2021"
publish = false

[dependencies]
mlua = { version = "0.10", features = ["lua54", "module"] }
typst = "0.14"
typst-syntax = "0.14"
typst-pdf = "0.14"
typst-kit = { version = "0.14", default-features = false, features = ["fonts"] }
time = "0.3"
codespan-reporting = "0.11"
ureq = "2"
tar = "0.4"
zune-inflate = "0.2"
bstr = "1"
