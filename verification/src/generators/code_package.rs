//! A generated file: where it goes, its name and its text.

use vstd::prelude::*;
use crate::paths::{expand_tilde, join, path_join, tilde_outcome};

verus! {

/// Why a code package could not be saved.
pub struct CodePackageError {
    message: String,
}

impl CodePackageError {
    pub closed spec fn spec_message(&self) -> Seq<char> {
        self.message@
    }

    pub fn new(message: String) -> (e: Self)
        ensures
            e.spec_message() == message@,
    {
        CodePackageError { message }
    }

    pub fn message(&self) -> (m: &String)
        ensures
            m@ == self.spec_message(),
    {
        &self.message
    }

    /// The text shown for this error: `Error: {message}`.
    pub fn describe(&self) -> (r: String)
        ensures
            r@ == "Error: "@ + self.spec_message(),
    {
        let mut r = String::new();
        r.append("Error: ");
        r.append(self.message.as_str());
        r
    }
}

/// A generated file: the directory it goes in, its name and its contents.
pub struct CodePackage {
    pub dir_rel_path: String,
    pub file_name: String,
    pub code: String,
}

/// The text shown for a code package.
pub open spec fn package_description(dir: Seq<char>, name: Seq<char>, code: Seq<char>) -> Seq<char> {
    name + " - in dir: "@ + dir + "\nCode:\n"@ + code
}

impl CodePackage {
    /// The text shown for this package: its file name, its directory and its
    /// contents.
    pub fn describe(&self) -> (r: String)
        ensures
            r@ == package_description(self.dir_rel_path@, self.file_name@, self.code@),
    {
        let mut r = String::new();
        r.append(self.file_name.as_str());
        r.append(" - in dir: ");
        r.append(self.dir_rel_path.as_str());
        r.append("\nCode:\n");
        r.append(self.code.as_str());
        r
    }
}

/// Where a package is saved: its directory with a leading `~` expanded,
/// and the path of its file in that directory.
pub fn save_target(package: &CodePackage) -> (r: (String, String))
    ensures
        tilde_outcome(package.dir_rel_path@, r.0@),
        r.1@ == path_join(r.0@, package.file_name@),
{
    let dir = expand_tilde(package.dir_rel_path.as_str());
    let file = join(dir.as_str(), package.file_name.as_str());
    (dir, file)
}

} // verus!
