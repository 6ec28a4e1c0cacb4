[package]
name = "pnet_datalink"
version = "0.1.0"
edition = "2021"
publish = false

[dependencies]
ndisapi = "=0.6.6"
windows = { version = "=0.58.0", features = ["Win32_Foundation", "Win32_NetworkManagement_IpHelper", "Win32_NetworkManagement_Ndis", "Win32_System_Threading"] }
windows-core = "=0.58.0"
pnet_base = "=0.35.0"
ipnetwork = "=0.21.1"
