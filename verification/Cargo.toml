[package]
name = "airlog"
version = "0.1.0"
edition = "2021"
publish = false

[dependencies]
crc_all = "=0.2.2"
gas-index-algorithm = "=0.1.3"
heapless = "=0.7.17"
embedded-hal = "=0.2.7"
micromath = "=2.1.0"
nb = "=1.1.0"
void = { version = "=1.0.2", default-features = false }
cortex-m = "=0.7.10"
cortex-m-rt = "=0.7.7"
defmt = "=1.2.0"
defmt-rtt = "=1.3.1"
panic-probe = { version = "=1.0.0", features = ["print-defmt"] }
nrf52840-hal = "=0.14.1"
hd44780-driver = "=0.4.0"
bmp388 = "=0.1.0"
shared-bus = "=0.3.1"
smart-leds = "=0.3.0"
nrf-smartled = { version = "=0.5.0", features = ["52840"] }
sps30-i2c = "=0.1.0"
