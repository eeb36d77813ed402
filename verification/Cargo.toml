[package]
name = "sdb_pipeline"
version = "0.1.0"
edition = "2021"
publish = false

[dependencies]
criterion = { version = "0.5", default-features = false }
futures = "0.3"
rayon = "1"
thingbuf = "0.1"
tokio = { version = "1", features = ["rt", "rt-multi-thread"] }

[dev-dependencies]
num_cpus = "1"
