[package]
name = "handlr-regex"
version = "0.1.0"
edition = "2021"
publish = false

[dependencies]
clap = { version = "4", features = ["derive"] }
clap_complete = { version = "4", features = ["unstable-dynamic"] }
clap_mangen = "*"
clap-verbosity-flag = { version = "3", default-features = false, features = ["tracing"] }
confy = "*"
devx-cmd = "*"
mime = "0.3"
mime-db = "1"
notify-rust = "4"
regex = "1"
serde = { version = "1", features = ["derive"] }
serde_ini = "0.2"
serde_json = "1"
shlex = "1"
thiserror = "*"
tracing = "0.1"
tracing-appender = "0.2"
tracing-subscriber = { version = "0.3", features = ["env-filter"] }
url = "2"
xdg = "2"
xdg-mime = "0.4"
