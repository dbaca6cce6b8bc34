//! Injection of the generated library into an Xcode project.

pub mod inject_pbxproj;
pub mod properties;
pub mod build_configurations;
pub mod reading_back;
