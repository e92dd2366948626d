[package]
name = "gway"
version = "0.1.0"
edition = "2021"
publish = false

[dependencies]
bytes = "=1.12.1"
coarsetime = "=0.1.38"
crossbeam-skiplist = "=0.1.3"
dashmap = "=6.2.1"
faststr = "=0.2.34"
futures-util = "=0.3.34"
h3 = "*"
http-body = "=1.1.0"
http-body-util = "=0.1.5"
hyper = { version = "=1.12.0", features = ["client", "server", "http1", "http2"] }
hyper-util = { version = "=0.1.21", features = ["tokio"] }
listenfd = "=1.0.2"
log = "=0.4.34"
parking_lot = "=0.12.5"
rustls = { version = "=0.23.46", default-features = false, features = ["ring", "std", "tls12"] }
rustls-pemfile = "=2.2.0"
rustls-pki-types = "=1.15.1"
static_init = "=1.0.4"
sub_host = "=0.1.0"
thiserror = "=2.0.21"
tokio = { version = "=1.54.1", features = ["full"] }
tokio-rustls = { version = "=0.26.6", default-features = false, features = ["ring", "tls12"] }
x509-parser = "=0.18.1"
