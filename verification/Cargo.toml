[package]
name = "i2c_sniffer"
version = "0.1.0"
edition = "2021"
publish = false

[dependencies]
cortex-m = "0.6"
cortex-m-rt = "=0.6.15"
panic-halt = "=0.2.0"
stm32f3xx-hal = { version = "=0.6.1", features = ["stm32f303x8", "rt"] }
