//! The `src/lib.rs` of the generated Rust crate: a greeting function exported
//! to C, and the function that frees the string it returns.

use vstd::prelude::*;
use crate::configuration::Config;
use crate::generators::code_package::CodePackage;
use crate::paths::{join, path_join};

verus! {

/// The text of the generated `lib.rs`.
pub const LIB_RS_CODE: &'static str = "use std::os::raw::{c_char};
use std::ffi::{CString, CStr};

/// # Safety
///
/// This function should not be called too early!
#[no_mangle]
pub unsafe extern fn rust_greet(to: *const c_char) -> *mut c_char {
  let c_str = CStr::from_ptr(to);
  let recipient = match c_str.to_str() {
    Err(_) => \"there\",
    Ok(string) => string,
  };
  CString::new(\"Greetings \".to_owned() + recipient).unwrap().into_raw()
}

/// # Safety
///
/// This function should not be called too early!
#[no_mangle]
pub unsafe extern fn rust_greet_free(s: *mut c_char) {
  {
    if s.is_null() { return }
    CString::from_raw(s)
  };
}
";

/// `lib.rs` in `{output_dir}/{rust_dir}/src`.
pub fn generate(config: &Config) -> (p: CodePackage)
    ensures
        p.dir_rel_path@ == path_join(path_join(config.output_dir@, config.rust_dir@), "src"@),
        p.file_name@ == "lib.rs"@,
        p.code@ == LIB_RS_CODE@,
{
    let mut code = String::new();
    code.append(LIB_RS_CODE);
    let crate_dir = join(config.output_dir.as_str(), config.rust_dir.as_str());
    let dir = join(crate_dir.as_str(), "src");
    let mut file_name = String::new();
    file_name.append("lib.rs");
    CodePackage { dir_rel_path: dir, file_name, code }
}

} // verus!
