[package]
name = "z_n_gauge"
version = "0.1.0"
edition = "2021"
publish = false

[dependencies]
bincode = "1.3"
rand = "0.8"
rand_pcg = { version = "0.3", features = ["serde1"] }
ndarray = "0.15"
npyz = { version = "0.8", features = ["derive", "npz"] }
byteorder = "1"
chrono = "0.4"
serde = { version = "1", features = ["derive"] }
serde_json = "1"
zip = "0.6"
