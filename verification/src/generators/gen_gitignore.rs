//! The `.gitignore` of the generated Rust crate.

use vstd::prelude::*;
use crate::configuration::Config;
use crate::generators::code_package::CodePackage;
use crate::paths::{join, path_join};

verus! {

/// The contents of the generated `.gitignore`.
pub open spec fn gitignore_code() -> Seq<char> {
    "/target\n**/*.rs.bk\nCargo.lock\n"@
}

/// `.gitignore` in `{output_dir}/{rust_dir}`.
pub fn generate(config: &Config) -> (p: CodePackage)
    ensures
        p.dir_rel_path@ == path_join(config.output_dir@, config.rust_dir@),
        p.file_name@ == ".gitignore"@,
        p.code@ == gitignore_code(),
{
    let mut code = String::new();
    code.append("/target\n**/*.rs.bk\nCargo.lock\n");
    let dir = join(config.output_dir.as_str(), config.rust_dir.as_str());
    let mut file_name = String::new();
    file_name.append(".gitignore");
    CodePackage { dir_rel_path: dir, file_name, code }
}

} // verus!
