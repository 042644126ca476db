[package]
name = "wit_bindgen_gen_tinygo"
version = "0.1.0"
edition = "2021"
publish = false

[dependencies]
heck = "=0.3.3"
structopt = "=0.3.26"
