[package]
name = "redis_dashboard"
version = "0.1.0"
edition = "2021"
publish = false

[dependencies]
redis = "=1.7.1"
ncurses = "=5.101.0"
crossbeam-channel = "=0.5.17"
log = "=0.4.34"
log4rs = "=1.4.0"
chrono = "=0.4.45"
