use executorch_prebuilt::android::{
    aar_checksum_url, aar_path, aar_url, android_dir, android_library_targets,
};
use executorch_prebuilt::apple::{
    architecture_dirs, architectures, binaries_dir, binary_payloads, manifest_url, zip_entry_steps,
    EntryPath, ExtractStep, BASE_URL,
};
use executorch_prebuilt::paths::{join, version_string, version_tag_string};

fn entry(text: &str) -> EntryPath {
    EntryPath {
        text: text.to_string(),
        components: text.split('/').filter(|c| !c.is_empty() && *c != ".").map(String::from).collect(),
    }
}

#[test]
fn versions() {
    assert_eq!(version_string(1, 2, 0), "1.2.0");
    assert_eq!(version_string(255, 10, 9), "255.10.9");
    assert_eq!(version_tag_string(0, 100, 42), "0_100_42");
}

#[test]
fn joins() {
    assert_eq!(join("out", "aar"), "out/aar");
    assert_eq!(join("out/", "aar"), "out/aar");
    assert_eq!(join("", "aar"), "aar");
    assert_eq!(join("/", "aar"), "/aar");
}

#[test]
fn apple_locations() {
    assert_eq!(binaries_dir("/tmp/o", 1, 1, 0), "/tmp/o/executorch_binaries/xt_1_1_0");
    assert_eq!(
        manifest_url(1, 2, 3),
        "https://raw.githubusercontent.com/pytorch/executorch/refs/heads/swiftpm-1.2.3/Package.swift"
    );
    assert_eq!(architectures(), vec!["ios-arm64-simulator", "macos-arm64", "ios-arm64"]);
    assert_eq!(
        architecture_dirs("d"),
        vec!["d/ios-arm64-simulator", "d/macos-arm64", "d/ios-arm64"]
    );
}

#[test]
fn payloads_follow_manifest_entries() {
    let entries = vec![
        ("executorch".to_string(), "ab".to_string()),
        ("backend_coreml_debug".to_string(), "cd".to_string()),
    ];
    let p = binary_payloads(&entries, 1, 2, 0);
    assert_eq!(p.len(), 2);
    assert_eq!(p[0].name, "executorch-1.2.0.zip");
    assert_eq!(p[0].url, format!("{BASE_URL}executorch-1.2.0.zip"));
    assert_eq!(p[0].url, "https://ossci-ios.s3.amazonaws.com/executorch/executorch-1.2.0.zip");
    assert_eq!(p[0].expected_sha, "ab");
    assert_eq!(p[1].name, "backend_coreml_debug-1.2.0.zip");
    assert_eq!(p[1].expected_sha, "cd");
    assert!(binary_payloads(&Vec::new(), 1, 2, 0).is_empty());
}

#[test]
fn android_locations() {
    assert_eq!(android_dir("/o", 1, 2, 0), "/o/executorch_binaries/android_1_2_0");
    assert_eq!(android_dir("/o/", 1, 2, 0), "/o/executorch_binaries/android_1_2_0");
    let url = aar_url(1, 2, 0);
    assert_eq!(
        url,
        "https://repo1.maven.org/maven2/org/pytorch/executorch-android/1.2.0/executorch-android-1.2.0.aar"
    );
    assert_eq!(aar_checksum_url(1, 2, 0), format!("{url}.sha256"));
    assert_eq!(aar_path("."), "./aar");
}

#[test]
fn android_archive_entries() {
    assert_eq!(
        android_library_targets("jni/x86_64/libexecutorch.so", "d"),
        vec![("d/x86_64".to_string(), "d/x86_64/libexecutorch.so".to_string())]
    );
    assert_eq!(
        android_library_targets("jni/arm64-v8a/libexecutorch.so", "d"),
        vec![("d/arm64".to_string(), "d/arm64/libexecutorch.so".to_string())]
    );
    assert!(android_library_targets("jni/armeabi-v7a/libexecutorch.so", "d").is_empty());
    assert!(android_library_targets("jni/arm64-v8a/libother.so", "d").is_empty());
    assert_eq!(android_library_targets("x86_64/arm64/libexecutorch.so", "d").len(), 2);
}

#[test]
fn release_library_is_kept_under_plain_name() {
    let e = entry("executorch.xcframework/ios-arm64/libexecutorch_ios.a");
    assert_eq!(
        zip_entry_steps(Some(&e), false, "out", false),
        vec![
            ExtractStep::CopyTo("out/ios-arm64/libexecutorch.a".to_string()),
            ExtractStep::Report("ios-arm64/libexecutorch_ios.a".to_string()),
        ]
    );
    assert!(zip_entry_steps(Some(&e), false, "out", true).is_empty());
}

#[test]
fn debug_library_only_for_debug_builds() {
    let e = entry("backend_coreml.xcframework/ios-arm64-simulator/libbackend_coreml_debug_simulator.a");
    assert!(zip_entry_steps(Some(&e), false, "o", false).is_empty());
    assert_eq!(
        zip_entry_steps(Some(&e), false, "o", true),
        vec![
            ExtractStep::CopyTo("o/ios-arm64-simulator/libbackend_coreml.a".to_string()),
            ExtractStep::Report(
                "ios-arm64-simulator/libbackend_coreml_debug_simulator.a".to_string()
            ),
        ]
    );
}

#[test]
fn headers_keep_their_layout() {
    let f = entry("executorch.xcframework/macos-arm64/Headers/executorch/runtime.h");
    assert_eq!(
        zip_entry_steps(Some(&f), false, "o", false),
        vec![ExtractStep::CopyTo("o/macos-arm64/Headers/executorch/runtime.h".to_string())]
    );
    let d = entry("executorch.xcframework/macos-arm64/Headers/executorch/");
    assert_eq!(
        zip_entry_steps(Some(&d), true, "o", false),
        vec![ExtractStep::CreateDirAll("o/macos-arm64/Headers/executorch".to_string())]
    );
    let top = entry("executorch.xcframework/macos-arm64/");
    assert_eq!(
        zip_entry_steps(Some(&top), true, "o", false),
        vec![ExtractStep::CreateDirAll("o/macos-arm64/".to_string())]
    );
}

#[test]
fn entries_outside_architectures_are_ignored() {
    let e = entry("executorch.xcframework/Info.plist");
    assert!(zip_entry_steps(Some(&e), false, "o", false).is_empty());
    let h = entry("include/Headers/a.h");
    assert!(zip_entry_steps(Some(&h), false, "o", false).is_empty());
    assert!(zip_entry_steps(None, false, "o", false).is_empty());
}
