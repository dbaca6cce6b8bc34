//! The `install.sh` script that builds the generated crate for iOS and
//! copies the library and its bridging header into the iOS project.

use vstd::prelude::*;
use crate::configuration::{bridge_h_file_name, lib_executable_name, libs_directory_path, Config};
use crate::generators::code_package::CodePackage;
use crate::paths::tilde_outcome;

verus! {

/// The contents of `install.sh`, given the configuration's `rust_dir`,
/// `rust_file_name` and `ios_dir`, the name of the iOS project directory and
/// the iOS `libs` directory.
pub open spec fn install_sh_code(
    rust_dir: Seq<char>,
    rust_file_name: Seq<char>,
    ios_dir: Seq<char>,
    ios_dir_name: Seq<char>,
    ios_libs_dir: Seq<char>,
) -> Seq<char> {
    "#!/bin/sh\n\ncd "@ + rust_dir + "\ncargo lipo --release\ncbindgen src/lib.rs -l c > "@
        + rust_file_name + ".h\n\n# mkdir "@ + ios_dir + "/include\n"@ + "mkdir "@ + ios_libs_dir
        + "\n"@ + "cp "@ + rust_file_name + ".h "@ + ios_dir + "/"@ + ios_dir_name + "/"@
        + bridge_h_file_name(rust_file_name) + "\n"@ + "cp target/universal/release/"@
        + lib_executable_name(rust_file_name) + " "@ + ios_libs_dir + "\n"@
}

/// `install.sh` in `output_dir`, for the given iOS `libs` directory.
pub fn generate_with_libs_dir(config: &Config, ios_libs_dir: &str) -> (p: CodePackage)
    requires
        config.ios_dir_name() is Some,
    ensures
        p.dir_rel_path@ == config.output_dir@,
        p.file_name@ == "install.sh"@,
        p.code@ == install_sh_code(
            config.rust_dir@,
            config.rust_file_name@,
            config.ios_dir@,
            config.ios_dir_name()->0,
            ios_libs_dir@,
        ),
{
    let lib_executable_name = config.get_ios_lib_executable_name();
    let rust_file_name = config.rust_file_name.as_str();
    let ios_dir = config.ios_dir.as_str();
    let ios_dir_name = config.get_ios_dir_name();
    let bridge_header_name = config.get_bridge_h_file_name();
    let mut code = String::new();
    code.append("#!/bin/sh\n\ncd ");
    code.append(config.rust_dir.as_str());
    code.append("\ncargo lipo --release\ncbindgen src/lib.rs -l c > ");
    code.append(rust_file_name);
    code.append(".h\n\n# mkdir ");
    code.append(ios_dir);
    code.append("/include\n");
    code.append("mkdir ");
    code.append(ios_libs_dir);
    code.append("\n");
    code.append("cp ");
    code.append(rust_file_name);
    code.append(".h ");
    code.append(ios_dir);
    code.append("/");
    code.append(ios_dir_name.as_str());
    code.append("/");
    code.append(bridge_header_name.as_str());
    code.append("\n");
    code.append("cp target/universal/release/");
    code.append(lib_executable_name.as_str());
    code.append(" ");
    code.append(ios_libs_dir);
    code.append("\n");
    let mut file_name = String::new();
    file_name.append("install.sh");
    CodePackage { dir_rel_path: config.output_dir.clone(), file_name, code }
}

/// `install.sh` in `output_dir`; the iOS `libs` directory is `ios_dir`, with a
/// leading `~` expanded to the home directory, extended by `libs`.
pub fn generate(config: &Config) -> (p: CodePackage)
    requires
        config.ios_dir_name() is Some,
    ensures
        p.dir_rel_path@ == config.output_dir@,
        p.file_name@ == "install.sh"@,
        exists|expanded: Seq<char>|
            #![trigger tilde_outcome(config.ios_dir@, expanded)]
            tilde_outcome(config.ios_dir@, expanded) && p.code@ == install_sh_code(
                config.rust_dir@,
                config.rust_file_name@,
                config.ios_dir@,
                config.ios_dir_name()->0,
                libs_directory_path(expanded),
            ),
{
    let ios_libs_dir = config.get_ios_libs_directory_path();
    generate_with_libs_dir(config, ios_libs_dir.as_str())
}

} // verus!
