use create_rust_ios::configuration::Config;
use create_rust_ios::injectors::inject_pbxproj::{
    get_sections, handle_lib_search, handle_pbx_group_section, parse, print_sections,
    project_pbxproj_path, Section,
};

const VARIANT_WITH_FRAMEWORKS_GROUP: &str = "// !$*UTF8*$!\n{\n\tarchiveVersion = 1;\n\tclasses = {\n\t};\n\tobjectVersion = 56;\n\tobjects = {\n\n/* Begin PBXBuildFile section */\n\t\tF96882022A28405700C2DF3B /* MyIOSAppApp.swift in Sources */ = {isa = PBXBuildFile; fileRef = F96882012A28405700C2DF3B /* MyIOSAppApp.swift */; };\n/* End PBXBuildFile section */\n\n/* Begin PBXFileReference section */\n\t\tF96881FF2A28405700C2DF3B /* MyIOSApp.app */ = {isa = PBXFileReference; explicitFileType = wrapper.application; includeInIndex = 0; path = MyIOSApp.app; sourceTree = BUILT_PRODUCTS_DIR; };\n\t\tF96882012A28405700C2DF3B /* MyIOSAppApp.swift */ = {isa = PBXFileReference; lastKnownFileType = sourcecode.swift; path = MyIOSAppApp.swift; sourceTree = \"<group>\"; };\n/* End PBXFileReference section */\n\n/* Begin PBXFrameworksBuildPhase section */\n/* End PBXFrameworksBuildPhase section */\n\n/* Begin PBXGroup section */\n\t\tF96881F52A28405700C2DF3B = {\n\t\t\tisa = PBXGroup;\n\t\t\tchildren = (\n\t\t\t\tF96882002A28405700C2DF3B /* MyIOSApp */,\n\t\t\t\tF96882002A28405700C2DF3C /* Products */,\n\t\t\t\tAAAA00002A28405700C2DF3B /* Frameworks */,\n\t\t\t);\n\t\t\tsourceTree = \"<group>\";\n\t\t};\n\t\tF96882002A28405700C2DF3B /* MyIOSApp */ = {\n\t\t\tisa = PBXGroup;\n\t\t\tchildren = (\n\t\t\t\tF96882012A28405700C2DF3B /* MyIOSAppApp.swift */,\n\t\t\t);\n\t\t\tpath = MyIOSApp;\n\t\t\tsourceTree = \"<group>\";\n\t\t};\n/* End PBXGroup section */\n\n/* Begin PBXNativeTarget section */\n\t\tF96881FE2A28405700C2DF3B /* MyIOSApp */ = {\n\t\t\tisa = PBXNativeTarget;\n\t\t\tbuildPhases = (\n\t\t\t\tF96881FB2A28405700C2DF3B /* Sources */,\n\t\t\t\tF96881FC2A28405700C2DF3B /* Frameworks */,\n\t\t\t\tF96881FD2A28405700C2DF3B /* Resources */,\n\t\t\t);\n\t\t\tname = MyIOSApp;\n\t\t};\n/* End PBXNativeTarget section */\n\n/* Begin XCBuildConfiguration section */\n\t\tF96882212A28405A00C2DF3B /* Debug */ = {\n\t\t\tisa = XCBuildConfiguration;\n\t\t\tbuildSettings = {\n\t\t\t\tCODE_SIGN_STYLE = Automatic;\n\t\t\t\tLD_RUNPATH_SEARCH_PATHS = (\n\t\t\t\t\t\"$(inherited)\",\n\t\t\t\t\t\"@executable_path/Frameworks\",\n\t\t\t\t);\n\t\t\t\tPRODUCT_NAME = \"$(TARGET_NAME)\";\n\t\t\t};\n\t\t\tname = Debug;\n\t\t};\n\t\tF96882222A28405A00C2DF3B /* Release */ = {\n\t\t\tisa = XCBuildConfiguration;\n\t\t\tbuildSettings = {\n\t\t\t\tCODE_SIGN_STYLE = Automatic;\n\t\t\t\tLD_RUNPATH_SEARCH_PATHS = (\n\t\t\t\t\t\"$(inherited)\",\n\t\t\t\t\t\"@executable_path/Frameworks\",\n\t\t\t\t);\n\t\t\t\tPRODUCT_NAME = \"$(TARGET_NAME)\";\n\t\t\t};\n\t\t\tname = Release;\n\t\t};\n/* End XCBuildConfiguration section */\n\t};\n\trootObject = F96881F62A28405700C2DF3B /* Project object */;\n}\n";

const VARIANT_EDITED: &str = "// !$*UTF8*$!\n{\n\tarchiveVersion = 1;\n\tclasses = {\n\t};\n\tobjectVersion = 56;\n\tobjects = {\n\n/* Begin PBXBuildFile section */\n\n\t\tF96882022A28405700C2DF3B /* MyIOSAppApp.swift in Sources */ = {isa = PBXBuildFile; fileRef = F96882012A28405700C2DF3B /* MyIOSAppApp.swift */; };\n\t\tF9A8DB0E2A3F60CC00A5F46A /* librust_bridge_header.a in Frameworks */ = {isa = PBXBuildFile; fileRef = F9A8DB082A39639800A5F46A /* librust_bridge_header.a */; };\n/* End PBXBuildFile section */\n/* Begin PBXFileReference section */\n\n\t\tF96881FF2A28405700C2DF3B /* MyIOSApp.app */ = {isa = PBXFileReference; explicitFileType = wrapper.application; includeInIndex = 0; path = MyIOSApp.app; sourceTree = BUILT_PRODUCTS_DIR; };\n\t\tF96882012A28405700C2DF3B /* MyIOSAppApp.swift */ = {isa = PBXFileReference; lastKnownFileType = sourcecode.swift; path = MyIOSAppApp.swift; sourceTree = \"<group>\"; };\n\t\tF9A8DB082A39639800A5F46A /* librust_bridge_header.a */ = {isa = PBXFileReference; lastKnownFileType = archive.ar; name = librust_bridge_header.a; path = libs/librust_bridge_header.a; sourceTree = \"<group>\"; };\n\t\tF9A8DB0B2A3D489100A5F46A /* rust_bridge_header.h */ = {isa = PBXFileReference; lastKnownFileType = sourcecode.c.h; path = \"rust_bridge_header.h\"; sourceTree = \"<group>\"; };\n/* End PBXFileReference section */\n/* Begin PBXFrameworksBuildPhase section */\n\n\t\tF96881FC2A28405700C2DF3B /* Frameworks */ = {\n\t\t\tisa = PBXFrameworksBuildPhase;\n\t\t\tbuildActionMask = 2147483647;\n\t\t\tfiles = (\n\t\t\t\tF9A8DB0E2A3F60CC00A5F46A /* librust_bridge_header.a in Frameworks */,\n\t\t\t);\n\t\t\trunOnlyForDeploymentPostprocessing = 0;\n\t\t};\n\n/* End PBXFrameworksBuildPhase section */\n/* Begin PBXGroup section */\n\n\t\tF96881F52A28405700C2DF3B = {\n\t\t\tisa = PBXGroup;\n\t\t\tchildren = (\n\t\t\t\tF96882002A28405700C2DF3B /* MyIOSApp */,\n\t\t\t\tF96882002A28405700C2DF3C /* Products */,\n\t\t\t\tAAAA00002A28405700C2DF3B /* Frameworks */,\n\t\t\t);\n\t\t\tsourceTree = \"<group>\";\n\t\t};\n\t\tF96882002A28405700C2DF3B /* MyIOSApp */ = {\n\t\t\tisa = PBXGroup;\n\t\t\tchildren = (\n\t\t\t\tF9A8DB0B2A3D489100A5F46A /* rust_bridge_header.h */,\n\t\t\t\tF96882012A28405700C2DF3B /* MyIOSAppApp.swift */,\n\t\t\t);\n\t\t\tpath = MyIOSApp;\n\t\t\tsourceTree = \"<group>\";\n\t\t};\n\t\tAAAA00002A28405700C2DF3B /* Frameworks */ = {\n\t\t\tisa = PBXGroup;\n\t\t\tchildren = (\n\t\t\t\tF9A8DB082A39639800A5F46A /* librust_bridge_header.a */,\n\t\t\t);\n\t\t\tname = Frameworks;\n\t\t\tsourceTree = \"<group>\";\n\t\t};\n\n/* End PBXGroup section */\n/* Begin PBXNativeTarget section */\n\n\t\tF96881FE2A28405700C2DF3B /* MyIOSApp */ = {\n\t\t\tisa = PBXNativeTarget;\n\t\t\tbuildPhases = (\n\t\t\t\tF96881FB2A28405700C2DF3B /* Sources */,\n\t\t\t\tF96881FC2A28405700C2DF3B /* Frameworks */,\n\t\t\t\tF96881FD2A28405700C2DF3B /* Resources */,\n\t\t\t);\n\t\t\tname = MyIOSApp;\n\t\t};\n/* End PBXNativeTarget section */\n/* Begin XCBuildConfiguration section */\n\n\t\tF96882212A28405A00C2DF3B /* Debug */ = {\n\t\t\tisa = XCBuildConfiguration;\n\t\t\tbuildSettings = {\n\t\t\t\tCODE_SIGN_STYLE = Automatic;\n\t\t\t\tLD_RUNPATH_SEARCH_PATHS = (\n\t\t\t\t\t\"$(inherited)\",\n\t\t\t\t\t\"@executable_path/Frameworks\",\n\t\t\t\t);\n\t\t\t\tPRODUCT_NAME = \"$(TARGET_NAME)\";\n\t\t\t\t\t\tLIBRARY_SEARCH_PATHS = \"/Users/me/MyIOSApp/libs\";\n\t\t\t\t\"LIBRARY_SEARCH_PATHS[arch=*]\" = \"/Users/me/MyIOSApp/libs\";\n\t\t\t\tSWIFT_OBJC_BRIDGING_HEADER = \"MyIOSApp/rust_bridge_header.h\";\n\t\t\t};\n\t\t\tname = Debug;\n\t\t};\n\t\tF96882222A28405A00C2DF3B /* Release */ = {\n\t\t\tisa = XCBuildConfiguration;\n\t\t\tbuildSettings = {\n\t\t\t\tCODE_SIGN_STYLE = Automatic;\n\t\t\t\tLD_RUNPATH_SEARCH_PATHS = (\n\t\t\t\t\t\"$(inherited)\",\n\t\t\t\t\t\"@executable_path/Frameworks\",\n\t\t\t\t);\n\t\t\t\tPRODUCT_NAME = \"$(TARGET_NAME)\";\n\t\t\t\t\t\tLIBRARY_SEARCH_PATHS = \"/Users/me/MyIOSApp/libs\";\n\t\t\t\t\"LIBRARY_SEARCH_PATHS[arch=*]\" = \"/Users/me/MyIOSApp/libs\";\n\t\t\t\tSWIFT_OBJC_BRIDGING_HEADER = \"MyIOSApp/rust_bridge_header.h\";\n\t\t\t};\n\t\t\tname = Release;\n\t\t};\n/* End XCBuildConfiguration section */\n\n\t};\n\trootObject = F96881F62A28405700C2DF3B /* Project object */;\n}\n";

const OTHER_APP_EDITED: &str = "// !$*UTF8*$!\n{\n\tarchiveVersion = 1;\n\tclasses = {\n\t};\n\tobjectVersion = 56;\n\tobjects = {\n\n/* Begin PBXBuildFile section */\n\n\t\tF96882022A28405700C2DF3B /* MyIOSAppApp.swift in Sources */ = {isa = PBXBuildFile; fileRef = F96882012A28405700C2DF3B /* MyIOSAppApp.swift */; };\n\t\tF9A8DB0E2A3F60CC00A5F46A /* librust_bridge_header.a in Frameworks */ = {isa = PBXBuildFile; fileRef = F9A8DB082A39639800A5F46A /* librust_bridge_header.a */; };\n/* End PBXBuildFile section */\n/* Begin PBXFileReference section */\n\n\t\tF96881FF2A28405700C2DF3B /* MyIOSApp.app */ = {isa = PBXFileReference; explicitFileType = wrapper.application; includeInIndex = 0; path = MyIOSApp.app; sourceTree = BUILT_PRODUCTS_DIR; };\n\t\tF96882012A28405700C2DF3B /* MyIOSAppApp.swift */ = {isa = PBXFileReference; lastKnownFileType = sourcecode.swift; path = MyIOSAppApp.swift; sourceTree = \"<group>\"; };\n\t\tF9A8DB082A39639800A5F46A /* librust_bridge_header.a */ = {isa = PBXFileReference; lastKnownFileType = archive.ar; name = librust_bridge_header.a; path = libs/librust_bridge_header.a; sourceTree = \"<group>\"; };\n\t\tF9A8DB0B2A3D489100A5F46A /* rust_bridge_header.h */ = {isa = PBXFileReference; lastKnownFileType = sourcecode.c.h; path = \"rust_bridge_header.h\"; sourceTree = \"<group>\"; };\n/* End PBXFileReference section */\n/* Begin PBXFrameworksBuildPhase section */\n\n\t\tF96881FC2A28405700C2DF3B /* Frameworks */ = {\n\t\t\tisa = PBXFrameworksBuildPhase;\n\t\t\tbuildActionMask = 2147483647;\n\t\t\tfiles = (\n\t\t\t\tF9A8DB0E2A3F60CC00A5F46A /* librust_bridge_header.a in Frameworks */,\n\t\t\t);\n\t\t\trunOnlyForDeploymentPostprocessing = 0;\n\t\t};\n\n/* End PBXFrameworksBuildPhase section */\n/* Begin PBXGroup section */\n\n\t\tF96881F52A28405700C2DF3B = {\n\t\t\tisa = PBXGroup;\n\t\t\tchildren = (\n\t\t\t\tF96882002A28405700C2DF3B /* MyIOSApp */,\n\t\t\t\tF96882002A28405700C2DF3C /* Products */,\n\t\t\t\tF9A8DB072A39639700A5F46A /* Frameworks */,\n\t\t\t);\n\t\t\tsourceTree = \"<group>\";\n\t\t};\n\t\tF96882002A28405700C2DF3B /* MyIOSApp */ = {\n\t\t\tisa = PBXGroup;\n\t\t\tchildren = (\n\t\t\t\tF96882012A28405700C2DF3B /* MyIOSAppApp.swift */,\n\t\t\t);\n\t\t\tpath = MyIOSApp;\n\t\t\tsourceTree = \"<group>\";\n\t\t};\n\t\tF9A8DB072A39639700A5F46A /* Frameworks */ = {\n\t\t\tisa = PBXGroup;\n\t\t\tchildren = (\n\t\t\t\tF9A8DB082A39639800A5F46A /* librust_bridge_header.a */,\n\t\t\t);\n\t\t\tname = Frameworks;\n\t\t\tsourceTree = \"<group>\";\n\t\t};\n\n/* End PBXGroup section */\n/* Begin PBXNativeTarget section */\n\n\t\tF96881FE2A28405700C2DF3B /* MyIOSApp */ = {\n\t\t\tisa = PBXNativeTarget;\n\t\t\tbuildPhases = (\n\t\t\t\tF96881FB2A28405700C2DF3B /* Sources */,\n\t\t\t\tF96881FC2A28405700C2DF3B /* Frameworks */,\n\t\t\t\tF96881FD2A28405700C2DF3B /* Resources */,\n\t\t\t);\n\t\t\tname = MyIOSApp;\n\t\t};\n/* End PBXNativeTarget section */\n/* Begin XCBuildConfiguration section */\n\n\t\tF96882212A28405A00C2DF3B /* Debug */ = {\n\t\t\tisa = XCBuildConfiguration;\n\t\t\tbuildSettings = {\n\t\t\t\tCODE_SIGN_STYLE = Automatic;\n\t\t\t\tLD_RUNPATH_SEARCH_PATHS = (\n\t\t\t\t\t\"$(inherited)\",\n\t\t\t\t\t\"@executable_path/Frameworks\",\n\t\t\t\t);\n\t\t\t\tPRODUCT_NAME = \"$(TARGET_NAME)\";\n\t\t\t\t\t\tLIBRARY_SEARCH_PATHS = \"/Users/me/OtherApp/libs\";\n\t\t\t\t\"LIBRARY_SEARCH_PATHS[arch=*]\" = \"/Users/me/OtherApp/libs\";\n\t\t\t\tSWIFT_OBJC_BRIDGING_HEADER = \"OtherApp/rust_bridge_header.h\";\n\t\t\t};\n\t\t\tname = Debug;\n\t\t};\n\t\tF96882222A28405A00C2DF3B /* Release */ = {\n\t\t\tisa = XCBuildConfiguration;\n\t\t\tbuildSettings = {\n\t\t\t\tCODE_SIGN_STYLE = Automatic;\n\t\t\t\tLD_RUNPATH_SEARCH_PATHS = (\n\t\t\t\t\t\"$(inherited)\",\n\t\t\t\t\t\"@executable_path/Frameworks\",\n\t\t\t\t);\n\t\t\t\tPRODUCT_NAME = \"$(TARGET_NAME)\";\n\t\t\t\t\t\tLIBRARY_SEARCH_PATHS = \"/Users/me/OtherApp/libs\";\n\t\t\t\t\"LIBRARY_SEARCH_PATHS[arch=*]\" = \"/Users/me/OtherApp/libs\";\n\t\t\t\tSWIFT_OBJC_BRIDGING_HEADER = \"OtherApp/rust_bridge_header.h\";\n\t\t\t};\n\t\t\tname = Release;\n\t\t};\n/* End XCBuildConfiguration section */\n\n\t};\n\trootObject = F96881F62A28405700C2DF3B /* Project object */;\n}\n";

const SAMPLE_FOR_OTHER_APP: &str = "// !$*UTF8*$!\n{\n\tarchiveVersion = 1;\n\tclasses = {\n\t};\n\tobjectVersion = 56;\n\tobjects = {\n\n/* Begin PBXBuildFile section */\n\t\tF96882022A28405700C2DF3B /* MyIOSAppApp.swift in Sources */ = {isa = PBXBuildFile; fileRef = F96882012A28405700C2DF3B /* MyIOSAppApp.swift */; };\n/* End PBXBuildFile section */\n\n/* Begin PBXFileReference section */\n\t\tF96881FF2A28405700C2DF3B /* MyIOSApp.app */ = {isa = PBXFileReference; explicitFileType = wrapper.application; includeInIndex = 0; path = MyIOSApp.app; sourceTree = BUILT_PRODUCTS_DIR; };\n\t\tF96882012A28405700C2DF3B /* MyIOSAppApp.swift */ = {isa = PBXFileReference; lastKnownFileType = sourcecode.swift; path = MyIOSAppApp.swift; sourceTree = \"<group>\"; };\n/* End PBXFileReference section */\n\n/* Begin PBXFrameworksBuildPhase section */\n/* End PBXFrameworksBuildPhase section */\n\n/* Begin PBXGroup section */\n\t\tF96881F52A28405700C2DF3B = {\n\t\t\tisa = PBXGroup;\n\t\t\tchildren = (\n\t\t\t\tF96882002A28405700C2DF3B /* MyIOSApp */,\n\t\t\t\tF96882002A28405700C2DF3C /* Products */,\n\t\t\t);\n\t\t\tsourceTree = \"<group>\";\n\t\t};\n\t\tF96882002A28405700C2DF3B /* MyIOSApp */ = {\n\t\t\tisa = PBXGroup;\n\t\t\tchildren = (\n\t\t\t\tF96882012A28405700C2DF3B /* MyIOSAppApp.swift */,\n\t\t\t);\n\t\t\tpath = MyIOSApp;\n\t\t\tsourceTree = \"<group>\";\n\t\t};\n/* End PBXGroup section */\n\n/* Begin PBXNativeTarget section */\n\t\tF96881FE2A28405700C2DF3B /* MyIOSApp */ = {\n\t\t\tisa = PBXNativeTarget;\n\t\t\tbuildPhases = (\n\t\t\t\tF96881FB2A28405700C2DF3B /* Sources */,\n\t\t\t\tF96881FC2A28405700C2DF3B /* Frameworks */,\n\t\t\t\tF96881FD2A28405700C2DF3B /* Resources */,\n\t\t\t);\n\t\t\tname = MyIOSApp;\n\t\t};\n/* End PBXNativeTarget section */\n\n/* Begin XCBuildConfiguration section */\n\t\tF96882212A28405A00C2DF3B /* Debug */ = {\n\t\t\tisa = XCBuildConfiguration;\n\t\t\tbuildSettings = {\n\t\t\t\tCODE_SIGN_STYLE = Automatic;\n\t\t\t\tLD_RUNPATH_SEARCH_PATHS = (\n\t\t\t\t\t\"$(inherited)\",\n\t\t\t\t\t\"@executable_path/Frameworks\",\n\t\t\t\t);\n\t\t\t\tPRODUCT_NAME = \"$(TARGET_NAME)\";\n\t\t\t};\n\t\t\tname = Debug;\n\t\t};\n\t\tF96882222A28405A00C2DF3B /* Release */ = {\n\t\t\tisa = XCBuildConfiguration;\n\t\t\tbuildSettings = {\n\t\t\t\tCODE_SIGN_STYLE = Automatic;\n\t\t\t\tLD_RUNPATH_SEARCH_PATHS = (\n\t\t\t\t\t\"$(inherited)\",\n\t\t\t\t\t\"@executable_path/Frameworks\",\n\t\t\t\t);\n\t\t\t\tPRODUCT_NAME = \"$(TARGET_NAME)\";\n\t\t\t};\n\t\t\tname = Release;\n\t\t};\n/* End XCBuildConfiguration section */\n\t};\n\trootObject = F96881F62A28405700C2DF3B /* Project object */;\n}\n";

fn config_for(ios_dir: &str) -> Config {
    Config {
        project_name: "rusty_ios_app".to_string(),
        output_dir: "./generated_rust_ios_apps".to_string(),
        rust_file_name: "rust_bridge_header".to_string(),
        rust_dir: "rust".to_string(),
        ios_dir: ios_dir.to_string(),
    }
}

#[test]
fn parse_reuses_existing_frameworks_group() {
    let c = config_for("/Users/me/MyIOSApp");
    assert_eq!(parse(&c, VARIANT_WITH_FRAMEWORKS_GROUP.to_string()), Ok(VARIANT_EDITED.to_string()));
}

#[test]
fn parse_for_app_without_project_group() {
    let c = config_for("/Users/me/OtherApp");
    assert_eq!(parse(&c, SAMPLE_FOR_OTHER_APP.to_string()), Ok(OTHER_APP_EDITED.to_string()));
}

#[test]
fn project_file_path_of_config() {
    let c = config_for("/Users/me/MyIOSApp");
    assert_eq!(
        project_pbxproj_path(&c),
        Some("/Users/me/MyIOSApp/MyIOSApp.xcodeproj/project.pbxproj".to_string())
    );
}

#[test]
fn lib_search_sets_both_build_configurations() {
    let c = Config {
        project_name: "p".to_string(),
        output_dir: "o".to_string(),
        rust_file_name: "r".to_string(),
        rust_dir: "rust".to_string(),
        ios_dir: "/a/App".to_string(),
    };
    let mut sections = vec![Section {
        name: "XCBuildConfiguration section".to_string(),
        content: "buildSettings = {LD_RUNPATH_SEARCH_PATHS};buildSettings = {LD_RUNPATH_SEARCH_PATHS};"
            .to_string(),
    }];
    assert_eq!(handle_lib_search(&c, "/a/App/libs", &mut sections), Ok(()));
    let b = "buildSettings = {LD_RUNPATH_SEARCH_PATHS";
    let l = "\t\t\tLIBRARY_SEARCH_PATHS = \"/a/App/libs\";\n\t\t\t\t\"LIBRARY_SEARCH_PATHS[arch=*]\" = \"/a/App/libs\";\n\t\t\t\tSWIFT_OBJC_BRIDGING_HEADER = \"App/r.h\";\n\t\t\t";
    let expected = format!("{}{}}};{}{}}};", b, l, b, l);
    assert_eq!(sections[0].content, expected);
    let mut again = vec![Section { name: sections[0].name.clone(), content: expected.clone() }];
    assert_eq!(handle_lib_search(&c, "/a/App/libs", &mut again), Ok(()));
    assert_eq!(again[0].content, expected);
}

fn section(name: &str, content: &str) -> Section {
    Section { name: name.to_string(), content: content.to_string() }
}

#[test]
fn printing_distributes_over_concatenation() {
    let a = vec![section("A", "\nx\n"), section("B", "")];
    let b = vec![section("C", "\ny\n")];
    let both = vec![section("A", "\nx\n"), section("B", ""), section("C", "\ny\n")];
    assert_eq!(print_sections(&both), format!("{}{}", print_sections(&a), print_sections(&b)));
    assert_eq!(print_sections(&Vec::new()), "");
    assert_eq!(print_sections(&b), "/* Begin C */\n\ny\n/* End C */\n");
}

#[test]
fn printed_sections_read_back() {
    let sections = vec![section("PBXBuildFile section", "x\n"), section("PBXGroup section", "y\n")];
    let text = print_sections(&sections);
    let back = get_sections(&text);
    assert_eq!(back.len(), 2);
    assert_eq!(back[0].name, "PBXBuildFile section");
    assert_eq!(back[0].content, "\nx\n");
    assert_eq!(back[1].name, "PBXGroup section");
    assert_eq!(back[1].content, "\ny\n");
}

#[test]
fn group_edit_twice_for_name_with_paren() {
    let c = Config {
        project_name: "p".to_string(),
        output_dir: "o".to_string(),
        rust_file_name: "a(b".to_string(),
        rust_dir: "rust".to_string(),
        ios_dir: "/x/App".to_string(),
    };
    let content = "\n\t\tF1 = {\n\t\t\tchildren = (\n\t\t\t\tF2 /* App */,\n\t\t\t\tF3 /* Products */,\n\t\t\t);\n\t\t};\n\t\tF2 /* App */ = {\n\t\t\tchildren = (\n\t\t\t);\n\t\t};\n";
    let mut once = vec![section("PBXGroup section", content)];
    handle_pbx_group_section(&c, &mut once);
    assert!(once[0].content.contains("liba(b.a"));
    assert!(once[0].content.contains("a(b.h"));
    let mut twice = vec![section("PBXGroup section", &once[0].content)];
    handle_pbx_group_section(&c, &mut twice);
    assert_eq!(twice[0].content, once[0].content);
}
