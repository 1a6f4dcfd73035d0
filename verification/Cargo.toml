[package]
name = "ui_tree"
version = "0.1.0"
edition = "2021"
publish = false

[dependencies]
unicode-segmentation = "1"
accesskit = "*"
thiserror = "*"
