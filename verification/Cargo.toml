[package]
name = "xenstore-win"
version = "0.1.0"
edition = "2021"
publish = false

[dependencies]
windows = { version = "=0.58.0", features = ["Win32_Foundation", "Win32_Security", "Win32_Devices_DeviceAndDriverInstallation", "Win32_Storage_FileSystem", "Win32_System_IO", "Win32_System_Ioctl", "Win32_System_Threading", "Win32_System_Com", "Win32_System_Rpc", "Win32_System_Wmi", "Win32_System_Variant", "Win32_System_Ole"] }
xenstore-rs = { version = "=0.8.0", features = ["async"] }
async-io = "=2.6.0"
event-listener = "=5.4.2"
flume = "=0.11.1"
futures = "=0.3.34"
intrusive-collections = "=0.9.7"
log = "=0.4.35"
trait-variant = "=0.1.3"
