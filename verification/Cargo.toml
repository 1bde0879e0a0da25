[package]
name = "capture_core"
version = "0.1.0"
edition = "2021"
publish = false

[dependencies]
ringbuf = "=0.4.8"
chrono = "=0.4.45"
cpal = "=0.18.2"
hound = "=3.5.1"
log = "=0.4.34"
parking_lot = "=0.12.5"
tokio = { version = "=1.53.2", default-features = false, features = ["rt", "rt-multi-thread", "time"] }
actix-web = { version = "=4.15.0", default-features = false, features = ["macros"] }
argh = "=0.1.19"
dotenv = "=0.15.0"
env_logger = { version = "=0.11.11", default-features = false }
ctrlc = "=3.5.2"
