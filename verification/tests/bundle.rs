use convex_ffi::bundle::{
    build_targets, cargo_build_args, libraries, library_path, profile_dir_name,
    strips_debug_info, update_swift_source, Library,
};
use convex_ffi::SwiftCommand;

#[test]
fn the_command_names_its_profile() {
    assert_eq!(SwiftCommand::BuildXCFramework { release: true }.profile(), "release");
    assert_eq!(SwiftCommand::BuildXCFramework { release: false }.profile(), "dev");
}

#[test]
fn the_dev_profile_builds_into_debug() {
    assert_eq!(profile_dir_name("dev"), "debug");
    assert_eq!(profile_dir_name("release"), "release");
    assert_eq!(profile_dir_name("bench"), "bench");
    assert!(strips_debug_info("release"));
    assert!(!strips_debug_info("dev"));
}

#[test]
fn the_bundle_holds_three_libraries() {
    let expected = vec![
        Library::Single { target: "aarch64-apple-ios".to_string() },
        Library::Multiple {
            targets: vec!["aarch64-apple-ios-sim".to_string(), "x86_64-apple-ios".to_string()],
            lipo: "libconvex_ffi_ios_sim.a".to_string(),
        },
        Library::Multiple {
            targets: vec!["aarch64-apple-darwin".to_string(), "x86_64-apple-darwin".to_string()],
            lipo: "libconvex_ffi_macos.a".to_string(),
        },
    ];
    assert_eq!(libraries(), expected);
}

#[test]
fn cargo_is_told_the_profile_and_every_target() {
    let expected = vec![
        "build",
        "-p",
        "convex-ffi",
        "--profile",
        "release",
        "--target",
        "aarch64-apple-ios",
        "--target",
        "aarch64-apple-ios-sim",
        "--target",
        "x86_64-apple-ios",
        "--target",
        "aarch64-apple-darwin",
        "--target",
        "x86_64-apple-darwin",
    ];
    assert_eq!(cargo_build_args("release", &libraries()), expected);
    assert_eq!(
        build_targets(&libraries()),
        vec![
            "aarch64-apple-ios",
            "aarch64-apple-ios-sim",
            "x86_64-apple-ios",
            "aarch64-apple-darwin",
            "x86_64-apple-darwin",
        ]
    );
    assert_eq!(cargo_build_args("dev", &Vec::new()), vec!["build", "-p", "convex-ffi", "--profile", "dev"]);
}

#[test]
fn a_library_lies_below_its_target_and_profile() {
    assert_eq!(
        library_path("x86_64-apple-ios", "debug"),
        vec!["x86_64-apple-ios", "debug", "libconvex_ffi.a"]
    );
}

#[test]
fn the_swift_value_type_is_opened_up() {
    let source = "import Foundation\npublic enum Value {\n    case null\n}\n";
    let expected =
        "import Foundation\n@dynamicMemberLookup\npublic enum Value: Sendable {\n    case null\n}\n";
    assert_eq!(update_swift_source(source), expected);
    assert_eq!(update_swift_source("nothing to change"), "nothing to change");
}

#[test]
fn every_declaration_of_the_value_type_is_opened_up() {
    let source = "public enum Value {public enum Value {}\npublic enum Value";
    let expected = "@dynamicMemberLookup\npublic enum Value: Sendable {\
                    @dynamicMemberLookup\npublic enum Value: Sendable {}\npublic enum Value";
    assert_eq!(update_swift_source(source), expected);
    assert_eq!(update_swift_source(""), "");
}
