use create_rust_ios::configuration::Config;
use create_rust_ios::injectors::inject_pbxproj::{
    get_build_settings, get_sections, group_content_with_header, parse_panic_message,
    parse_with_libs_path, reports_missing_frameworks,
};

const LIBS: &str = "/Users/me/MyIOSApp/libs";

fn config() -> Config {
    Config {
        project_name: "rusty_ios_app".to_string(),
        output_dir: "./generated_rust_ios_apps".to_string(),
        rust_file_name: "rust_bridge_header".to_string(),
        rust_dir: "rust".to_string(),
        ios_dir: "/Users/me/MyIOSApp".to_string(),
    }
}

fn names_and_contents(content: &str) -> Vec<(String, String)> {
    get_sections(content).into_iter().map(|s| (s.name, s.content)).collect()
}

#[test]
fn sections_after_non_ascii_content_drift() {
    assert_eq!(names_and_contents("/* Begin A */\né\n/* End A */\n/* Begin B */\nx\n/* End B */\n"), vec![("A".to_string(), "\né\n/".to_string()), ("B".to_string(), "\nx\n/".to_string())]);
    assert_eq!(names_and_contents("/* Begin A */\nx\n/* End A */\n/* Begin B */\nñ\n/* End B */\n"), vec![("A".to_string(), "\nx\n".to_string()), ("B".to_string(), "\nñ\n/".to_string())]);
}

#[test]
fn build_settings_offsets_are_bytes() {
    let content = "ééé buildSettings = {\n X = 1;\n LD = 2;\n};\n";
    let index = content.find("LD").unwrap();
    assert_eq!(
        get_build_settings(content, index),
        Some(("ldSettings = {\n X = 1;\n LD = 2;\n".to_string(), 7, 39))
    );
}

#[test]
fn header_goes_where_the_byte_offset_points() {
    assert_eq!(
        group_content_with_header("r.h", "App", "libr.a ééé /* App */ = {\nchildren = (\n\t\tchildren = (\n"),
        "libr.a ééé /* App */ = {\nchildren \n\t\t\t\tF9A8DB0B2A3D489100A5F46A /* r.h */,= (\n\t\tchildren = (\n"
    );
}

#[test]
fn non_ascii_before_sections_loses_the_native_target() {
    let c = config();
    let content = "// !$*UTF8*$! ééé\n{\n\tarchiveVersion = 1;\n\tclasses = {\n\t};\n\tobjectVersion = 56;\n\tobjects = {\n\n/* Begin PBXBuildFile section */\n\t\tF96882022A28405700C2DF3B /* MyIOSAppApp.swift in Sources */ = {isa = PBXBuildFile; fileRef = F96882012A28405700C2DF3B /* MyIOSAppApp.swift */; };\n/* End PBXBuildFile section */\n\n/* Begin PBXFileReference section */\n\t\tF96881FF2A28405700C2DF3B /* MyIOSApp.app */ = {isa = PBXFileReference; explicitFileType = wrapper.application; includeInIndex = 0; path = MyIOSApp.app; sourceTree = BUILT_PRODUCTS_DIR; };\n\t\tF96882012A28405700C2DF3B /* MyIOSAppApp.swift */ = {isa = PBXFileReference; lastKnownFileType = sourcecode.swift; path = MyIOSAppApp.swift; sourceTree = \"<group>\"; };\n/* End PBXFileReference section */\n\n/* Begin PBXFrameworksBuildPhase section */\n/* End PBXFrameworksBuildPhase section */\n\n/* Begin PBXGroup section */\n\t\tF96881F52A28405700C2DF3B = {\n\t\t\tisa = PBXGroup;\n\t\t\tchildren = (\n\t\t\t\tF96882002A28405700C2DF3B /* MyIOSApp */,\n\t\t\t\tF96882002A28405700C2DF3C /* Products */,\n\t\t\t);\n\t\t\tsourceTree = \"<group>\";\n\t\t};\n\t\tF96882002A28405700C2DF3B /* MyIOSApp */ = {\n\t\t\tisa = PBXGroup;\n\t\t\tchildren = (\n\t\t\t\tF96882012A28405700C2DF3B /* MyIOSAppApp.swift */,\n\t\t\t);\n\t\t\tpath = MyIOSApp;\n\t\t\tsourceTree = \"<group>\";\n\t\t};\n/* End PBXGroup section */\n\n/* Begin PBXNativeTarget section */\n\t\tF96881FE2A28405700C2DF3B /* MyIOSApp */ = {\n\t\t\tisa = PBXNativeTarget;\n\t\t\tbuildPhases = (\n\t\t\t\tF96881FB2A28405700C2DF3B /* Sources */,\n\t\t\t\tF96881FC2A28405700C2DF3B /* Frameworks */,\n\t\t\t\tF96881FD2A28405700C2DF3B /* Resources */,\n\t\t\t);\n\t\t\tname = MyIOSApp;\n\t\t};\n/* End PBXNativeTarget section */\n\n/* Begin XCBuildConfiguration section */\n\t\tF96882212A28405A00C2DF3B /* Debug */ = {\n\t\t\tisa = XCBuildConfiguration;\n\t\t\tbuildSettings = {\n\t\t\t\tCODE_SIGN_STYLE = Automatic;\n\t\t\t\tLD_RUNPATH_SEARCH_PATHS = (\n\t\t\t\t\t\"$(inherited)\",\n\t\t\t\t\t\"@executable_path/Frameworks\",\n\t\t\t\t);\n\t\t\t\tPRODUCT_NAME = \"$(TARGET_NAME)\";\n\t\t\t};\n\t\t\tname = Debug;\n\t\t};\n\t\tF96882222A28405A00C2DF3B /* Release */ = {\n\t\t\tisa = XCBuildConfiguration;\n\t\t\tbuildSettings = {\n\t\t\t\tCODE_SIGN_STYLE = Automatic;\n\t\t\t\tLD_RUNPATH_SEARCH_PATHS = (\n\t\t\t\t\t\"$(inherited)\",\n\t\t\t\t\t\"@executable_path/Frameworks\",\n\t\t\t\t);\n\t\t\t\tPRODUCT_NAME = \"$(TARGET_NAME)\";\n\t\t\t};\n\t\t\tname = Release;\n\t\t};\n/* End XCBuildConfiguration section */\n\t};\n\trootObject = F96881F62A28405700C2DF3B /* Project object */;\n}\n";
    assert!(!reports_missing_frameworks(&c, content));
    assert_eq!(
        parse_panic_message(&c, LIBS, content),
        Some("Cannot find the PBXNativeTarget section".to_string())
    );
}

#[test]
fn non_ascii_group_comment_is_edited_by_bytes() {
    let c = config();
    let content = "// !$*UTF8*$!\n{\n\tarchiveVersion = 1;\n\tclasses = {\n\t};\n\tobjectVersion = 56;\n\tobjects = {\n\n/* Begin PBXBuildFile section */\n\t\tF96882022A28405700C2DF3B /* MyIOSAppApp.swift in Sources */ = {isa = PBXBuildFile; fileRef = F96882012A28405700C2DF3B /* MyIOSAppApp.swift */; };\n/* End PBXBuildFile section */\n\n/* Begin PBXFileReference section */\n\t\tF96881FF2A28405700C2DF3B /* MyIOSApp.app */ = {isa = PBXFileReference; explicitFileType = wrapper.application; includeInIndex = 0; path = MyIOSApp.app; sourceTree = BUILT_PRODUCTS_DIR; };\n\t\tF96882012A28405700C2DF3B /* MyIOSAppApp.swift */ = {isa = PBXFileReference; lastKnownFileType = sourcecode.swift; path = MyIOSAppApp.swift; sourceTree = \"<group>\"; };\n/* End PBXFileReference section */\n\n/* Begin PBXFrameworksBuildPhase section */\n/* End PBXFrameworksBuildPhase section */\n\n/* Begin PBXGroup section */\n\t\tF96881F52A28405700C2DF3B /* Grüße aus Köln */ = {\n\t\t\tisa = PBXGroup;\n\t\t\tchildren = (\n\t\t\t\tF96882002A28405700C2DF3B /* MyIOSApp */,\n\t\t\t\tF96882002A28405700C2DF3C /* Products */,\n\t\t\t);\n\t\t\tsourceTree = \"<group>\";\n\t\t};\n\t\tF96882002A28405700C2DF3B /* MyIOSApp */ = {\n\t\t\tisa = PBXGroup;\n\t\t\tchildren = (\n\t\t\t\tF96882012A28405700C2DF3B /* MyIOSAppApp.swift */,\n\t\t\t);\n\t\t\tpath = MyIOSApp;\n\t\t\tsourceTree = \"<group>\";\n\t\t};\n/* End PBXGroup section */\n\n/* Begin PBXNativeTarget section */\n\t\tF96881FE2A28405700C2DF3B /* MyIOSApp */ = {\n\t\t\tisa = PBXNativeTarget;\n\t\t\tbuildPhases = (\n\t\t\t\tF96881FB2A28405700C2DF3B /* Sources */,\n\t\t\t\tF96881FC2A28405700C2DF3B /* Frameworks */,\n\t\t\t\tF96881FD2A28405700C2DF3B /* Resources */,\n\t\t\t);\n\t\t\tname = MyIOSApp;\n\t\t};\n/* End PBXNativeTarget section */\n\n/* Begin XCBuildConfiguration section */\n\t\tF96882212A28405A00C2DF3B /* Debug */ = {\n\t\t\tisa = XCBuildConfiguration;\n\t\t\tbuildSettings = {\n\t\t\t\tCODE_SIGN_STYLE = Automatic;\n\t\t\t\tLD_RUNPATH_SEARCH_PATHS = (\n\t\t\t\t\t\"$(inherited)\",\n\t\t\t\t\t\"@executable_path/Frameworks\",\n\t\t\t\t);\n\t\t\t\tPRODUCT_NAME = \"$(TARGET_NAME)\";\n\t\t\t};\n\t\t\tname = Debug;\n\t\t};\n\t\tF96882222A28405A00C2DF3B /* Release */ = {\n\t\t\tisa = XCBuildConfiguration;\n\t\t\tbuildSettings = {\n\t\t\t\tCODE_SIGN_STYLE = Automatic;\n\t\t\t\tLD_RUNPATH_SEARCH_PATHS = (\n\t\t\t\t\t\"$(inherited)\",\n\t\t\t\t\t\"@executable_path/Frameworks\",\n\t\t\t\t);\n\t\t\t\tPRODUCT_NAME = \"$(TARGET_NAME)\";\n\t\t\t};\n\t\t\tname = Release;\n\t\t};\n/* End XCBuildConfiguration section */\n\t};\n\trootObject = F96881F62A28405700C2DF3B /* Project object */;\n}\n";
    assert!(reports_missing_frameworks(&c, content));
    assert_eq!(parse_panic_message(&c, LIBS, content), None);
    assert_eq!(parse_with_libs_path(&c, LIBS, content.to_string()), Ok("// !$*UTF8*$!\n{\n\tarchiveVersion = 1;\n\tclasses = {\n\t};\n\tobjectVersion = 56;\n\tobjects = {\n\n/* Begin PBXBuildFile section */\n\n\t\tF96882022A28405700C2DF3B /* MyIOSAppApp.swift in Sources */ = {isa = PBXBuildFile; fileRef = F96882012A28405700C2DF3B /* MyIOSAppApp.swift */; };\n\t\tF9A8DB0E2A3F60CC00A5F46A /* librust_bridge_header.a in Frameworks */ = {isa = PBXBuildFile; fileRef = F9A8DB082A39639800A5F46A /* librust_bridge_header.a */; };\n/* End PBXBuildFile section */\n/* Begin PBXFileReference section */\n\n\t\tF96881FF2A28405700C2DF3B /* MyIOSApp.app */ = {isa = PBXFileReference; explicitFileType = wrapper.application; includeInIndex = 0; path = MyIOSApp.app; sourceTree = BUILT_PRODUCTS_DIR; };\n\t\tF96882012A28405700C2DF3B /* MyIOSAppApp.swift */ = {isa = PBXFileReference; lastKnownFileType = sourcecode.swift; path = MyIOSAppApp.swift; sourceTree = \"<group>\"; };\n\t\tF9A8DB082A39639800A5F46A /* librust_bridge_header.a */ = {isa = PBXFileReference; lastKnownFileType = archive.ar; name = librust_bridge_header.a; path = libs/librust_bridge_header.a; sourceTree = \"<group>\"; };\n\t\tF9A8DB0B2A3D489100A5F46A /* rust_bridge_header.h */ = {isa = PBXFileReference; lastKnownFileType = sourcecode.c.h; path = \"rust_bridge_header.h\"; sourceTree = \"<group>\"; };\n/* End PBXFileReference section */\n/* Begin PBXFrameworksBuildPhase section */\n\n\t\tF96881FC2A28405700C2DF3B /* Frameworks */ = {\n\t\t\tisa = PBXFrameworksBuildPhase;\n\t\t\tbuildActionMask = 2147483647;\n\t\t\tfiles = (\n\t\t\t\tF9A8DB0E2A3F60CC00A5F46A /* librust_bridge_header.a in Frameworks */,\n\t\t\t);\n\t\t\trunOnlyForDeploymentPostprocessing = 0;\n\t\t};\n\n/* End PBXFrameworksBuildPhase section */\n/* Begin PBXGroup section */\n\n\t\tF96881F52A28405700C2DF3B /* Grüße aus Köln */ = {\n\t\t\tisa = PBXGroup;\n\t\t\tchildren = (\n\t\t\t\tF96882002A28405700C2DF3B /* MyIOSApp */,\n\t\t\t\tF96882002A28405700C2DF3C /* Products */,\n\t\t\t\tF9A8DB072A39639700A5F46A /* Frameworks */,\n\t\t\t);\n\t\t\tsourceTree = \"<group>\";\n\t\t};\n\t\tF96882002A28405700C2DF3B /* MyIOSApp */ = {\n\t\t\tisa = PBXGroup;\n\t\t\tchildren \n\t\t\t\tF9A8DB0B2A3D489100A5F46A /* rust_bridge_header.h */,= (\n\t\t\t\tF96882012A28405700C2DF3B /* MyIOSAppApp.swift */,\n\t\t\t);\n\t\t\tpath = MyIOSApp;\n\t\t\tsourceTree = \"<group>\";\n\t\t};\n/* \t\tF9A8DB072A39639700A5F46A /* Frameworks */ = {\n\t\t\tisa = PBXGroup;\n\t\t\tchildren = (\n\t\t\t\tF9A8DB082A39639800A5F46A /* librust_bridge_header.a */,\n\t\t\t);\n\t\t\tname = Frameworks;\n\t\t\tsourceTree = \"<group>\";\n\t\t};\n\n/* End PBXGroup section */\n/* Begin PBXNativeTarget section */\n\n\t\tF96881FE2A28405700C2DF3B /* MyIOSApp */ = {\n\t\t\tisa = PBXNativeTarget;\n\t\t\tbuildPhases = (\n\t\t\t\tF96881FB2A28405700C2DF3B /* Sources */,\n\t\t\t\tF96881FC2A28405700C2DF3B /* Frameworks */,\n\t\t\t\tF96881FD2A28405700C2DF3B /* Resources */,\n\t\t\t);\n\t\t\tname = MyIOSApp;\n\t\t};\n/* /* End PBXNativeTarget section */\n/* Begin XCBuildConfiguration section */\n\n\t\tF96882212A28405A00C2DF3B /* Debug */ = {\n\t\t\tisa = XCBuildConfiguration;\n\t\t\tbuildSettings = {\n\t\t\t\tCODE_SIGN_STYLE = Automatic;\n\t\t\t\tLD_RUNPATH_SEARCH_PATHS = (\n\t\t\t\t\t\"$(inherited)\",\n\t\t\t\t\t\"@executable_path/Frameworks\",\n\t\t\t\t);\n\t\t\t\tPRODUCT_NAME = \"$(TARGET_NAME)\";\n\t\t\t\t\t\tLIBRARY_SEARCH_PATHS = \"/Users/me/MyIOSApp/libs\";\n\t\t\t\t\"LIBRARY_SEARCH_PATHS[arch=*]\" = \"/Users/me/MyIOSApp/libs\";\n\t\t\t\tSWIFT_OBJC_BRIDGING_HEADER = \"MyIOSApp/rust_bridge_header.h\";\n\t\t\t};\n\t\t\tname = Debug;\n\t\t};\n\t\tF96882222A28405A00C2DF3B /* Release */ = {\n\t\t\tisa = XCBuildConfiguration;\n\t\t\tbuildSettings = {\n\t\t\t\tCODE_SIGN_STYLE = Automatic;\n\t\t\t\tLD_RUNPATH_SEARCH_PATHS = (\n\t\t\t\t\t\"$(inherited)\",\n\t\t\t\t\t\"@executable_path/Frameworks\",\n\t\t\t\t);\n\t\t\t\tPRODUCT_NAME = \"$(TARGET_NAME)\";\n\t\t\t\t\t\tLIBRARY_SEARCH_PATHS = \"/Users/me/MyIOSApp/libs\";\n\t\t\t\t\"LIBRARY_SEARCH_PATHS[arch=*]\" = \"/Users/me/MyIOSApp/libs\";\n\t\t\t\tSWIFT_OBJC_BRIDGING_HEADER = \"MyIOSApp/rust_bridge_header.h\";\n\t\t\t};\n\t\t\tname = Release;\n\t\t};\n/* /* End XCBuildConfiguration section */\n\n\t};\n\trootObject = F96881F62A28405700C2DF3B /* Project object */;\n}\n".to_string()));
}

#[test]
fn non_ascii_build_settings_are_edited_by_bytes() {
    let c = config();
    let content = "// !$*UTF8*$!\n{\n\tarchiveVersion = 1;\n\tclasses = {\n\t};\n\tobjectVersion = 56;\n\tobjects = {\n\n/* Begin PBXBuildFile section */\n\t\tF96882022A28405700C2DF3B /* MyIOSAppApp.swift in Sources */ = {isa = PBXBuildFile; fileRef = F96882012A28405700C2DF3B /* MyIOSAppApp.swift */; };\n/* End PBXBuildFile section */\n\n/* Begin PBXFileReference section */\n\t\tF96881FF2A28405700C2DF3B /* MyIOSApp.app */ = {isa = PBXFileReference; explicitFileType = wrapper.application; includeInIndex = 0; path = MyIOSApp.app; sourceTree = BUILT_PRODUCTS_DIR; };\n\t\tF96882012A28405700C2DF3B /* MyIOSAppApp.swift */ = {isa = PBXFileReference; lastKnownFileType = sourcecode.swift; path = MyIOSAppApp.swift; sourceTree = \"<group>\"; };\n/* End PBXFileReference section */\n\n/* Begin PBXFrameworksBuildPhase section */\n/* End PBXFrameworksBuildPhase section */\n\n/* Begin PBXGroup section */\n\t\tF96881F52A28405700C2DF3B = {\n\t\t\tisa = PBXGroup;\n\t\t\tchildren = (\n\t\t\t\tF96882002A28405700C2DF3B /* MyIOSApp */,\n\t\t\t\tF96882002A28405700C2DF3C /* Products */,\n\t\t\t);\n\t\t\tsourceTree = \"<group>\";\n\t\t};\n\t\tF96882002A28405700C2DF3B /* MyIOSApp */ = {\n\t\t\tisa = PBXGroup;\n\t\t\tchildren = (\n\t\t\t\tF96882012A28405700C2DF3B /* MyIOSAppApp.swift */,\n\t\t\t);\n\t\t\tpath = MyIOSApp;\n\t\t\tsourceTree = \"<group>\";\n\t\t};\n/* End PBXGroup section */\n\n/* Begin PBXNativeTarget section */\n\t\tF96881FE2A28405700C2DF3B /* MyIOSApp */ = {\n\t\t\tisa = PBXNativeTarget;\n\t\t\tbuildPhases = (\n\t\t\t\tF96881FB2A28405700C2DF3B /* Sources */,\n\t\t\t\tF96881FC2A28405700C2DF3B /* Frameworks */,\n\t\t\t\tF96881FD2A28405700C2DF3B /* Resources */,\n\t\t\t);\n\t\t\tname = MyIOSApp;\n\t\t};\n/* End PBXNativeTarget section */\n\n/* Begin XCBuildConfiguration section */\n\t\tF96882212A28405A00C2DF3B /* Debug */ = {\n\t\t\tisa = XCBuildConfiguration;\n\t\t\tbuildSettings = {\n\t\t\t\tCODE_SIGN_STYLE = Automatic; /* ñandú ñandú */\n\t\t\t\tLD_RUNPATH_SEARCH_PATHS = (\n\t\t\t\t\t\"$(inherited)\",\n\t\t\t\t\t\"@executable_path/Frameworks\",\n\t\t\t\t);\n\t\t\t\tPRODUCT_NAME = \"$(TARGET_NAME)\";\n\t\t\t};\n\t\t\tname = Debug;\n\t\t};\n\t\tF96882222A28405A00C2DF3B /* Release */ = {\n\t\t\tisa = XCBuildConfiguration;\n\t\t\tbuildSettings = {\n\t\t\t\tCODE_SIGN_STYLE = Automatic; /* ñandú ñandú */\n\t\t\t\tLD_RUNPATH_SEARCH_PATHS = (\n\t\t\t\t\t\"$(inherited)\",\n\t\t\t\t\t\"@executable_path/Frameworks\",\n\t\t\t\t);\n\t\t\t\tPRODUCT_NAME = \"$(TARGET_NAME)\";\n\t\t\t};\n\t\t\tname = Release;\n\t\t};\n/* End XCBuildConfiguration section */\n\t};\n\trootObject = F96881F62A28405700C2DF3B /* Project object */;\n}\n";
    assert_eq!(parse_panic_message(&c, LIBS, content), None);
    assert_eq!(parse_with_libs_path(&c, LIBS, content.to_string()), Ok("// !$*UTF8*$!\n{\n\tarchiveVersion = 1;\n\tclasses = {\n\t};\n\tobjectVersion = 56;\n\tobjects = {\n\n/* Begin PBXBuildFile section */\n\n\t\tF96882022A28405700C2DF3B /* MyIOSAppApp.swift in Sources */ = {isa = PBXBuildFile; fileRef = F96882012A28405700C2DF3B /* MyIOSAppApp.swift */; };\n\t\tF9A8DB0E2A3F60CC00A5F46A /* librust_bridge_header.a in Frameworks */ = {isa = PBXBuildFile; fileRef = F9A8DB082A39639800A5F46A /* librust_bridge_header.a */; };\n/* End PBXBuildFile section */\n/* Begin PBXFileReference section */\n\n\t\tF96881FF2A28405700C2DF3B /* MyIOSApp.app */ = {isa = PBXFileReference; explicitFileType = wrapper.application; includeInIndex = 0; path = MyIOSApp.app; sourceTree = BUILT_PRODUCTS_DIR; };\n\t\tF96882012A28405700C2DF3B /* MyIOSAppApp.swift */ = {isa = PBXFileReference; lastKnownFileType = sourcecode.swift; path = MyIOSAppApp.swift; sourceTree = \"<group>\"; };\n\t\tF9A8DB082A39639800A5F46A /* librust_bridge_header.a */ = {isa = PBXFileReference; lastKnownFileType = archive.ar; name = librust_bridge_header.a; path = libs/librust_bridge_header.a; sourceTree = \"<group>\"; };\n\t\tF9A8DB0B2A3D489100A5F46A /* rust_bridge_header.h */ = {isa = PBXFileReference; lastKnownFileType = sourcecode.c.h; path = \"rust_bridge_header.h\"; sourceTree = \"<group>\"; };\n/* End PBXFileReference section */\n/* Begin PBXFrameworksBuildPhase section */\n\n\t\tF96881FC2A28405700C2DF3B /* Frameworks */ = {\n\t\t\tisa = PBXFrameworksBuildPhase;\n\t\t\tbuildActionMask = 2147483647;\n\t\t\tfiles = (\n\t\t\t\tF9A8DB0E2A3F60CC00A5F46A /* librust_bridge_header.a in Frameworks */,\n\t\t\t);\n\t\t\trunOnlyForDeploymentPostprocessing = 0;\n\t\t};\n\n/* End PBXFrameworksBuildPhase section */\n/* Begin PBXGroup section */\n\n\t\tF96881F52A28405700C2DF3B = {\n\t\t\tisa = PBXGroup;\n\t\t\tchildren = (\n\t\t\t\tF96882002A28405700C2DF3B /* MyIOSApp */,\n\t\t\t\tF96882002A28405700C2DF3C /* Products */,\n\t\t\t\tF9A8DB072A39639700A5F46A /* Frameworks */,\n\t\t\t);\n\t\t\tsourceTree = \"<group>\";\n\t\t};\n\t\tF96882002A28405700C2DF3B /* MyIOSApp */ = {\n\t\t\tisa = PBXGroup;\n\t\t\tchildren = (\n\t\t\t\tF9A8DB0B2A3D489100A5F46A /* rust_bridge_header.h */,\n\t\t\t\tF96882012A28405700C2DF3B /* MyIOSAppApp.swift */,\n\t\t\t);\n\t\t\tpath = MyIOSApp;\n\t\t\tsourceTree = \"<group>\";\n\t\t};\n\t\tF9A8DB072A39639700A5F46A /* Frameworks */ = {\n\t\t\tisa = PBXGroup;\n\t\t\tchildren = (\n\t\t\t\tF9A8DB082A39639800A5F46A /* librust_bridge_header.a */,\n\t\t\t);\n\t\t\tname = Frameworks;\n\t\t\tsourceTree = \"<group>\";\n\t\t};\n\n/* End PBXGroup section */\n/* Begin PBXNativeTarget section */\n\n\t\tF96881FE2A28405700C2DF3B /* MyIOSApp */ = {\n\t\t\tisa = PBXNativeTarget;\n\t\t\tbuildPhases = (\n\t\t\t\tF96881FB2A28405700C2DF3B /* Sources */,\n\t\t\t\tF96881FC2A28405700C2DF3B /* Frameworks */,\n\t\t\t\tF96881FD2A28405700C2DF3B /* Resources */,\n\t\t\t);\n\t\t\tname = MyIOSApp;\n\t\t};\n/* End PBXNativeTarget section */\n/* Begin XCBuildConfiguration section */\n\n\t\tF96882212A28405A00C2DF3B /* Debug */ = {\n\t\t\tisa = XCBuildConfiguration;\n\t\t\tbuildSettings = {\n\t\t\t\tCODE_SIGN_STYLE = Automatic; /* ñandú ñandú */\n\t\t\t\tLD_RUNPATH_SEARCH_PATHS = (\n\t\t\t\t\t\"$(inherited)\",\n\t\t\t\t\t\"@executable_path/Frameworks\",\n\t\t\t\t);\n\t\t\t\tPRODUCT_NAME = \"$(TARGET_NAME)\";\n\t\t\t\t\t\tLIBRARY_SEARCH_PATHS = \"/Users/me/MyIOSApp/libs\";\n\t\t\t\t\"LIBRARY_SEARCH_PATHS[arch=*]\" = \"/Users/me/MyIOSApp/libs\";\n\t\t\t\tSWIFT_OBJC_BRIDGING_HEADER = \"MyIOSApp/rust_bridge_header.h\";\n\t\t\t};\n\t\t\tname = Debug;\n\t\t};\n\t\tF96882222A28405A00C2DF3B /* Release */ = {\n\t\t\tisa = XCBuildConfiguration;\n\t\t\tbuildSettings = {\n\t\t\t\tCODE_SIGN_STYLE = Automatic; /* ñandú ñandú */\n\t\t\t\tLD_RUNPATH_SEARCH_PATHS = (\n\t\t\t\t\t\"$(inherited)\",\n\t\t\t\t\t\"@executable_path/Frameworks\",\n\t\t\t\t);\n\t\t\t\tPRODUCT_NAME = \"$(TARGET_NAME)\";\n\t\t\t\t\t\tLIBRARY_SEARCH_PATHS = \"/Users/me/MyIOSApp/libs\";\n\t\t\t\t\"LIBRARY_SEARCH_PATHS[arch=*]\" = \"/Users/me/MyIOSApp/libs\";\n\t\t\t\tSWIFT_OBJC_BRIDGING_HEADER = \"MyIOSApp/rust_bridge_header.h\";\n\t\t\t};\n\t\t\tname = Release;\n\t\t};\n/* End X/* End XCBuildConfiguration section */\n\n\t};\n\trootObject = F96881F62A28405700C2DF3B /* Project object */;\n}\n".to_string()));
}

#[test]
fn non_ascii_build_settings_can_underflow() {
    let c = config();
    let content = "// !$*UTF8*$!\n{\n\tarchiveVersion = 1;\n\tclasses = {\n\t};\n\tobjectVersion = 56;\n\tobjects = {\n\n/* Begin PBXBuildFile section */\n\t\tF96882022A28405700C2DF3B /* MyIOSAppApp.swift in Sources */ = {isa = PBXBuildFile; fileRef = F96882012A28405700C2DF3B /* MyIOSAppApp.swift */; };\n/* End PBXBuildFile section */\n\n/* Begin PBXFileReference section */\n\t\tF96881FF2A28405700C2DF3B /* MyIOSApp.app */ = {isa = PBXFileReference; explicitFileType = wrapper.application; includeInIndex = 0; path = MyIOSApp.app; sourceTree = BUILT_PRODUCTS_DIR; };\n\t\tF96882012A28405700C2DF3B /* MyIOSAppApp.swift */ = {isa = PBXFileReference; lastKnownFileType = sourcecode.swift; path = MyIOSAppApp.swift; sourceTree = \"<group>\"; };\n/* End PBXFileReference section */\n\n/* Begin PBXFrameworksBuildPhase section */\n/* End PBXFrameworksBuildPhase section */\n\n/* Begin PBXGroup section */\n\t\tF96881F52A28405700C2DF3B = {\n\t\t\tisa = PBXGroup;\n\t\t\tchildren = (\n\t\t\t\tF96882002A28405700C2DF3B /* MyIOSApp */,\n\t\t\t\tF96882002A28405700C2DF3C /* Products */,\n\t\t\t);\n\t\t\tsourceTree = \"<group>\";\n\t\t};\n\t\tF96882002A28405700C2DF3B /* MyIOSApp */ = {\n\t\t\tisa = PBXGroup;\n\t\t\tchildren = (\n\t\t\t\tF96882012A28405700C2DF3B /* MyIOSAppApp.swift */,\n\t\t\t);\n\t\t\tpath = MyIOSApp;\n\t\t\tsourceTree = \"<group>\";\n\t\t};\n/* End PBXGroup section */\n\n/* Begin PBXNativeTarget section */\n\t\tF96881FE2A28405700C2DF3B /* MyIOSApp */ = {\n\t\t\tisa = PBXNativeTarget;\n\t\t\tbuildPhases = (\n\t\t\t\tF96881FB2A28405700C2DF3B /* Sources */,\n\t\t\t\tF96881FC2A28405700C2DF3B /* Frameworks */,\n\t\t\t\tF96881FD2A28405700C2DF3B /* Resources */,\n\t\t\t);\n\t\t\tname = MyIOSApp;\n\t\t};\n/* End PBXNativeTarget section */\n\n/* Begin XCBuildConfiguration section */\nééééééééééééééééééééééééééééééééééééééééLD_RUNPATH_SEARCH_PATHSbuildSettings = {};\nLD_RUNPATH_SEARCH_PATHS\n/* End XCBuildConfiguration section */\n\t};\n\trootObject = F96881F62A28405700C2DF3B /* Project object */;\n}\n";
    assert!(reports_missing_frameworks(&c, content));
    assert_eq!(
        parse_panic_message(&c, LIBS, content),
        Some("attempt to subtract with overflow".to_string())
    );
}

#[test]
fn header_place_inside_a_character_panics() {
    let c = config();
    let content = "// !$*UTF8*$!\n{\n\tarchiveVersion = 1;\n\tclasses = {\n\t};\n\tobjectVersion = 56;\n\tobjects = {\n\n/* Begin PBXBuildFile section */\n\t\tF96882022A28405700C2DF3B /* MyIOSAppApp.swift in Sources */ = {isa = PBXBuildFile; fileRef = F96882012A28405700C2DF3B /* MyIOSAppApp.swift */; };\n/* End PBXBuildFile section */\n\n/* Begin PBXFileReference section */\n\t\tF96881FF2A28405700C2DF3B /* MyIOSApp.app */ = {isa = PBXFileReference; explicitFileType = wrapper.application; includeInIndex = 0; path = MyIOSApp.app; sourceTree = BUILT_PRODUCTS_DIR; };\n\t\tF96882012A28405700C2DF3B /* MyIOSAppApp.swift */ = {isa = PBXFileReference; lastKnownFileType = sourcecode.swift; path = MyIOSAppApp.swift; sourceTree = \"<group>\"; };\n/* End PBXFileReference section */\n\n/* Begin PBXFrameworksBuildPhase section */\n/* End PBXFrameworksBuildPhase section */\n\n\n/* Begin PBXNativeTarget section */\n\t\tF96881FE2A28405700C2DF3B /* MyIOSApp */ = {\n\t\t\tisa = PBXNativeTarget;\n\t\t\tbuildPhases = (\n\t\t\t\tF96881FB2A28405700C2DF3B /* Sources */,\n\t\t\t\tF96881FC2A28405700C2DF3B /* Frameworks */,\n\t\t\t\tF96881FD2A28405700C2DF3B /* Resources */,\n\t\t\t);\n\t\t\tname = MyIOSApp;\n\t\t};\n/* End PBXNativeTarget section */\n\n/* Begin XCBuildConfiguration section */\n\t\tF96882212A28405A00C2DF3B /* Debug */ = {\n\t\t\tisa = XCBuildConfiguration;\n\t\t\tbuildSettings = {\n\t\t\t\tCODE_SIGN_STYLE = Automatic;\n\t\t\t\tLD_RUNPATH_SEARCH_PATHS = (\n\t\t\t\t\t\"$(inherited)\",\n\t\t\t\t\t\"@executable_path/Frameworks\",\n\t\t\t\t);\n\t\t\t\tPRODUCT_NAME = \"$(TARGET_NAME)\";\n\t\t\t};\n\t\t\tname = Debug;\n\t\t};\n\t\tF96882222A28405A00C2DF3B /* Release */ = {\n\t\t\tisa = XCBuildConfiguration;\n\t\t\tbuildSettings = {\n\t\t\t\tCODE_SIGN_STYLE = Automatic;\n\t\t\t\tLD_RUNPATH_SEARCH_PATHS = (\n\t\t\t\t\t\"$(inherited)\",\n\t\t\t\t\t\"@executable_path/Frameworks\",\n\t\t\t\t);\n\t\t\t\tPRODUCT_NAME = \"$(TARGET_NAME)\";\n\t\t\t};\n\t\t\tname = Release;\n\t\t};\n/* End XCBuildConfiguration section */\n/* Begin PBXGroup section */\n\t\tF1 /* librust_bridge_header.a */\n\t\tX ééééééééééééé /* MyIOSApp */ = {\n日children = (\n\t\t);\n/* End PBXGroup section */\n\t};\n\trootObject = F96881F62A28405700C2DF3B /* Project object */;\n}\n";
    assert_eq!(reports_missing_frameworks(&c, content), false);
    assert_eq!(parse_panic_message(&c, LIBS, content), Some("byte index 88 is not a char boundary".to_string()));
}
