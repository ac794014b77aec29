[package]
name = "s3lightfixes"
version = "0.1.0"
edition = "2021"
publish = false

[dependencies]
clap = { version = "4", features = ["derive"] }
native-dialog = "*"
openmw-config = "*"
palette = "0.7"
serde = { version = "1", features = ["derive"] }
tes3 = "*"
toml = "*"
vfstool_lib = "*"
