[package]
name = "rvkernel"
version = "0.1.0"
edition = "2021"
publish = false

[dependencies]
riscv = "*"
sbi-rt = "*"
log = "*"
lazy_static = "*"
buddy_system_allocator = "*"
