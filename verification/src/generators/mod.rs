//! Generators of the files of the Rust library skeleton.

pub mod code_package;
pub mod gen_cargo_toml;
pub mod gen_gitignore;
pub mod gen_install_sh;
pub mod gen_lib;
