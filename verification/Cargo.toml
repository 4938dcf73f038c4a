[package]
name = "dht22"
version = "0.1.0"
edition = "2021"
publish = false

[dependencies]
embedded-hal = "1.0.0"
esp-alloc = "0.6.0"
esp-backtrace = { version = "0.15.0", features = ["esp32s3", "exception-handler", "panic-handler", "println"] }
esp-hal = { version = "0.23.1", features = ["esp32s3"] }
esp-println = { version = "0.13.0", features = ["esp32s3", "log"] }
log = "0.4"
