[package]
name = "death_calendar"
version = "0.1.0"
edition = "2021"
publish = false

[dependencies]
gregorian = "*"
svg = "*"
csscolorparser = "*"
anyhow = "1"
clap = { version = "4", features = ["derive"] }
serde = { version = "1", features = ["derive"] }
serde_with = "3"
directories = "*"
once_cell = "1"
relm4 = { version = "*", features = ["libadwaita"] }
