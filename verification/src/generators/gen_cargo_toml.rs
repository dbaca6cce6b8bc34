//! The `Cargo.toml` of the generated Rust crate.

use vstd::prelude::*;
use crate::configuration::Config;
use crate::generators::code_package::CodePackage;
use crate::paths::{join, path_join};

verus! {

/// The contents of the generated `Cargo.toml` for the crate `name`: a static
/// and a dynamic C library, both named `name`.
pub open spec fn cargo_toml_code(name: Seq<char>) -> Seq<char> {
    "[package]\nname = \""@ + name + "\"\nversion = \"0.1.0\"\nauthors = [\"You da author <you@da-author.app>\"]\nedition = \"2018\"\n\n[dependencies]\n\n[lib]\nname = \""@
        + name + "\"\ncrate-type = [\"staticlib\", \"cdylib\"]\n"@
}

/// `Cargo.toml` in `{output_dir}/{rust_dir}`.
pub fn generate(config: &Config) -> (p: CodePackage)
    ensures
        p.dir_rel_path@ == path_join(config.output_dir@, config.rust_dir@),
        p.file_name@ == "Cargo.toml"@,
        p.code@ == cargo_toml_code(config.rust_file_name@),
{
    let name = config.rust_file_name.as_str();
    let mut code = String::new();
    code.append("[package]\nname = \"");
    code.append(name);
    code.append("\"\nversion = \"0.1.0\"\nauthors = [\"You da author <you@da-author.app>\"]\nedition = \"2018\"\n\n[dependencies]\n\n[lib]\nname = \"");
    code.append(name);
    code.append("\"\ncrate-type = [\"staticlib\", \"cdylib\"]\n");
    let dir = join(config.output_dir.as_str(), config.rust_dir.as_str());
    let mut file_name = String::new();
    file_name.append("Cargo.toml");
    CodePackage { dir_rel_path: dir, file_name, code }
}

} // verus!
