//! Generation of a Rust library skeleton for an iOS app, and injection of
//! that library into the app's Xcode project file.

pub mod text;
pub mod paths;
pub mod configuration;
pub mod generators;
pub mod injectors;
