[package]
name = "blitz_py"
version = "0.1.0"
edition = "2021"
publish = false

[dependencies]
data-url = "=0.3.2"
png = "=0.18.1"
parley = "=0.10.0"
blitz-dom = "=0.3.0-beta.1"
blitz-html = "=0.3.0-beta.1"
blitz-paint = "=0.3.0-beta.1"
blitz-traits = "=0.3.0-beta.1"
anyrender = "=0.11.1"
anyrender_vello_cpu = "=0.14.0"
peniko = "=0.6.1"
pyo3 = "=0.30.1"
