//! The generator's configuration and the names derived from it.

use vstd::prelude::*;
use crate::paths::{expand_tilde, file_name, file_name_of, join, path_join, tilde_outcome};

verus! {

/// The configuration read from `create-rust-ios.config.json`.
#[derive(Debug)]
pub struct Config {
    pub project_name: String,
    pub output_dir: String,
    pub rust_file_name: String,
    pub rust_dir: String,
    pub ios_dir: String,
}

/// `lib{name}.a`: the static library built from the Rust crate `name`.
pub open spec fn lib_executable_name(rust_file_name: Seq<char>) -> Seq<char> {
    "lib"@ + rust_file_name + ".a"@
}

/// `{name}.h`: the bridging header generated for the Rust crate `name`.
pub open spec fn bridge_h_file_name(rust_file_name: Seq<char>) -> Seq<char> {
    rust_file_name + ".h"@
}

/// The `libs` directory inside an (already expanded) iOS project directory.
pub open spec fn libs_directory_path(expanded_ios_dir: Seq<char>) -> Seq<char> {
    path_join(expanded_ios_dir, "libs"@)
}

impl Config {
    /// The name of the iOS project directory: the final component of `ios_dir`.
    pub open spec fn ios_dir_name(&self) -> Option<Seq<char>> {
        file_name(self.ios_dir@)
    }

    /// `lib{rust_file_name}.a`.
    pub fn get_ios_lib_executable_name(&self) -> (r: String)
        ensures
            r@ == lib_executable_name(self.rust_file_name@),
    {
        let mut r = String::new();
        r.append("lib");
        r.append(self.rust_file_name.as_str());
        r.append(".a");
        r
    }

    /// `{rust_file_name}.h`.
    pub fn get_bridge_h_file_name(&self) -> (r: String)
        ensures
            r@ == bridge_h_file_name(self.rust_file_name@),
    {
        let mut r = String::new();
        r.append(self.rust_file_name.as_str());
        r.append(".h");
        r
    }

    /// The `libs` directory of the iOS project, with a leading `~` of
    /// `ios_dir` expanded to the home directory.
    pub fn get_ios_libs_directory_path(&self) -> (r: String)
        ensures
            exists|expanded: Seq<char>|
                tilde_outcome(self.ios_dir@, expanded) && r@ == libs_directory_path(expanded),
    {
        let expanded = expand_tilde(self.ios_dir.as_str());
        ios_libs_directory_path(expanded.as_str())
    }

    /// The final component of `ios_dir`.
    pub fn get_ios_dir_name(&self) -> (r: String)
        requires
            self.ios_dir_name() is Some,
        ensures
            r@ == self.ios_dir_name()->0,
    {
        match file_name_of(self.ios_dir.as_str()) {
            Some(n) => n,
            None => {
                // Ruled out by the precondition.
                assert(false);
                String::new()
            },
        }
    }
}

/// The `libs` directory inside the expanded iOS project directory.
pub fn ios_libs_directory_path(expanded_ios_dir: &str) -> (r: String)
    ensures
        r@ == libs_directory_path(expanded_ios_dir@),
{
    join(expanded_ios_dir, "libs")
}

} // verus!
