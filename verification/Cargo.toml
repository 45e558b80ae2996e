[package]
name = "rvkernel"
version = "0.1.0"
edition = "2021"
publish = false

[dependencies]
slab = "*"
shell-words = "*"
spin = "*"
riscv = "*"
sbi = "*"
fdt = "*"
virtio-drivers = "*"
buddy_system_allocator = "*"
time = { version = "*", default-features = false }
rsext4 = "*"
riscv_goldfish = "*"
riscv_plic = "*"
fatfs = "*"
exfat-slim = "*"
aligned = "*"
