[package]
name = "nrf52840_aht20"
version = "0.1.0"
edition = "2021"
publish = false

[dependencies]
embassy-nrf = { version = "=0.11.0", features = ["nrf52840", "time-driver-rtc1", "gpiote", "unstable-pac"] }
embassy-time = "=0.5.1"
embassy-executor = { version = "=0.10.0", features = ["platform-std", "executor-thread"] }
embassy-usb-logger = "=0.6.0"
cortex-m = "=0.7.10"
log = "=0.4.35"
panic-halt = "=1.0.0"
