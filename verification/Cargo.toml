[package]
name = "pg_infer"
version = "0.1.0"
edition = "2021"
publish = false

[dependencies]
url = "=2.5.8"
serde = { version = "1", features = ["derive"] }
serde_json = "1"
thiserror = "1"
tokio = { version = "1", features = ["rt", "net", "time", "macros"] }
reqwest = { version = "0.12", default-features = false, features = ["json", "http2"] }
hyper = { version = "1", features = ["client", "http1"] }
hyper-util = { version = "0.1", features = ["client-legacy", "http1", "tokio"] }
http-body-util = "0.1"
bytes = "1"
tower-service = "0.3"
tracing = "0.1"
memmap2 = "0.9"
ndarray = "=0.16.1"
rayon = "1"
once_cell = "1"
cudarc = { version = "=0.13.9", default-features = false, features = ["std", "driver", "cublas", "nvrtc", "cuda-12040"] }
pgrx = { version = "=0.16.1", default-features = false, features = ["pg17"] }
