[package]
name = "rustai_os"
version = "0.1.0"
edition = "2021"
publish = false

[dependencies]
pc-keyboard = "=0.5.1"
x86_64 = "=0.15.5"
bootloader = "=0.9.35"
spin = "=0.12.3"
volatile = "=0.2.7"
lazy_static = "=1.5.1"
linked_list_allocator = "=0.10.6"
pic8259 = "=0.11.0"
ndarray = "=0.17.2"
serde = "=1.0.229"
