use create_rust_ios::configuration::Config;
use create_rust_ios::generators::code_package::{save_target, CodePackage, CodePackageError};
use create_rust_ios::generators::{gen_cargo_toml, gen_gitignore, gen_install_sh, gen_lib};

fn config() -> Config {
    Config {
        project_name: "rusty_ios_app".to_string(),
        output_dir: "./generated_rust_ios_apps".to_string(),
        rust_file_name: "rust_bridge_header".to_string(),
        rust_dir: "rust".to_string(),
        ios_dir: "/Users/me/Documents/MyIOSApp".to_string(),
    }
}

#[test]
fn ios_names() {
    let c = config();
    assert_eq!(c.get_ios_lib_executable_name(), "librust_bridge_header.a");
    assert_eq!(c.get_bridge_h_file_name(), "rust_bridge_header.h");
    assert_eq!(c.get_ios_dir_name(), "MyIOSApp");
    assert_eq!(c.get_ios_libs_directory_path(), "/Users/me/Documents/MyIOSApp/libs");
}

#[test]
fn libs_directory_of_home_relative_dir() {
    let mut c = config();
    c.ios_dir = "~/Documents/MyIOSApp".to_string();
    let libs = c.get_ios_libs_directory_path();
    assert!(libs.ends_with("/Documents/MyIOSApp/libs"));
    assert!(!libs.starts_with('~'));
    c.ios_dir = "~user/MyIOSApp".to_string();
    assert_eq!(c.get_ios_libs_directory_path(), "~user/MyIOSApp/libs");
    c.ios_dir = "a/~/MyIOSApp".to_string();
    assert_eq!(c.get_ios_libs_directory_path(), "a/~/MyIOSApp/libs");
    assert_eq!(c.get_ios_dir_name(), "MyIOSApp");
}

#[test]
fn cargo_toml() {
    let p = gen_cargo_toml::generate(&config());
    assert_eq!(p.dir_rel_path, "./generated_rust_ios_apps/rust");
    assert_eq!(p.file_name, "Cargo.toml");
    assert_eq!(
        p.code,
        "[package]\nname = \"rust_bridge_header\"\nversion = \"0.1.0\"\nauthors = [\"You da author <you@da-author.app>\"]\nedition = \"2018\"\n\n[dependencies]\n\n[lib]\nname = \"rust_bridge_header\"\ncrate-type = [\"staticlib\", \"cdylib\"]\n"
    );
}

#[test]
fn gitignore() {
    let p = gen_gitignore::generate(&config());
    assert_eq!(p.dir_rel_path, "./generated_rust_ios_apps/rust");
    assert_eq!(p.file_name, ".gitignore");
    assert_eq!(p.code, "/target\n**/*.rs.bk\nCargo.lock\n");
}

#[test]
fn install_sh() {
    let p = gen_install_sh::generate(&config());
    assert_eq!(p.dir_rel_path, "./generated_rust_ios_apps");
    assert_eq!(p.file_name, "install.sh");
    assert_eq!(
        p.code,
        "#!/bin/sh\n\ncd rust\ncargo lipo --release\ncbindgen src/lib.rs -l c > rust_bridge_header.h\n\n# mkdir /Users/me/Documents/MyIOSApp/include\nmkdir /Users/me/Documents/MyIOSApp/libs\ncp rust_bridge_header.h /Users/me/Documents/MyIOSApp/MyIOSApp/rust_bridge_header.h\ncp target/universal/release/librust_bridge_header.a /Users/me/Documents/MyIOSApp/libs\n"
    );
}

#[test]
fn install_sh_with_given_libs_dir() {
    let p = gen_install_sh::generate_with_libs_dir(&config(), "/L");
    assert!(p.code.contains("\nmkdir /L\n"));
    assert!(p.code.ends_with("librust_bridge_header.a /L\n"));
}

#[test]
fn lib_rs() {
    let p = gen_lib::generate(&config());
    assert_eq!(p.dir_rel_path, "./generated_rust_ios_apps/rust/src");
    assert_eq!(p.file_name, "lib.rs");
    assert!(p.code.starts_with("use std::os::raw::{c_char};\nuse std::ffi::{CString, CStr};\n\n"));
    assert!(p.code.contains("CString::new(\"Greetings \".to_owned() + recipient).unwrap().into_raw()"));
    assert!(p.code.ends_with("    CString::from_raw(s)\n  };\n}\n"));
    assert_eq!(p.code.matches("#[no_mangle]").count(), 2);
}

#[test]
fn package_and_error_descriptions() {
    let p = CodePackage {
        dir_rel_path: "out".to_string(),
        file_name: "a.txt".to_string(),
        code: "x".to_string(),
    };
    assert_eq!(p.describe(), "a.txt - in dir: out\nCode:\nx");
    let e = CodePackageError::new("disk full".to_string());
    assert_eq!(e.describe(), "Error: disk full");
    assert_eq!(e.message(), "disk full");
}

#[test]
fn save_target_of_plain_directory() {
    let package = CodePackage {
        dir_rel_path: "./out/rust".to_string(),
        file_name: "Cargo.toml".to_string(),
        code: "x".to_string(),
    };
    assert_eq!(save_target(&package), ("./out/rust".to_string(), "./out/rust/Cargo.toml".to_string()));
    let rooted = CodePackage {
        dir_rel_path: "/tmp/out/".to_string(),
        file_name: "install.sh".to_string(),
        code: "x".to_string(),
    };
    assert_eq!(save_target(&rooted), ("/tmp/out/".to_string(), "/tmp/out/install.sh".to_string()));
}

#[test]
fn save_target_expands_home() {
    let package = CodePackage {
        dir_rel_path: "~/apps/rust".to_string(),
        file_name: "lib.rs".to_string(),
        code: "x".to_string(),
    };
    let (dir, file) = save_target(&package);
    assert!(dir.ends_with("/apps/rust"));
    assert!(!dir.starts_with('~') || dir == "~/apps/rust");
    assert_eq!(file, format!("{}/lib.rs", dir));
}
