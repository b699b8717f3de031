[package]
name = "led_keypad"
version = "0.1.0"
edition = "2021"
publish = false

[dependencies]
embassy-stm32 = { version = "=0.6.0", features = ["stm32f103c8"] }
embassy-time = "=0.5.1"
embassy-executor = { version = "=0.10.0", features = ["platform-std", "executor-thread"] }
defmt-rtt = "=1.3.1"
panic-probe = "=1.0.0"
