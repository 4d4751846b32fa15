[package]
name = "invoice_qr"
version = "0.1.0"
edition = "2021"
publish = false

[dependencies]
qrcode = { version = "*", default-features = false }
image = { version = "*", default-features = false, features = ["png"] }
structopt = "0.3"
log = "0.4"
simple_logger = "*"

[dev-dependencies]
rqrr = { version = "*", default-features = false }
