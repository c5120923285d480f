[package]
name = "pymermaider"
version = "0.1.0"
edition = "2021"
publish = false

[dependencies]
ruff_python_ast = "=0.0.5"
ruff_python_codegen = "=0.0.5"
ruff_python_parser = "=0.0.5"
ruff_python_semantic = "=0.0.5"
ruff_python_stdlib = "=0.0.5"
ruff_text_size = "=0.0.5"
clap = { version = "*", features = ["derive"] }
globset = "*"
ignore = "*"
log = "*"
env_logger = "*"
# get-size2 is not used directly: this patch is pinned so that the ruff
# crates resolve against a compact_str they have a GetSize impl for.
get-size2 = "=0.10.1"
