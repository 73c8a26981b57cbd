use executorch_prebuilt::target::{
    link_prebuilts, merge_apple_libs, merged_archive_link_lines, static_lib_merge_step, AndroidTarget, AppleTarget, BuildStep,
    EnabledFeatures, Feature, FeatureSet, Target, UnsupportedPlatform,
};

fn emits(lines: &[&str]) -> Vec<BuildStep> {
    lines.iter().map(|l| BuildStep::Emit(l.to_string())).collect()
}

const XCODE: &str = "/Applications/Xcode.app/Contents/Developer\n";

fn swift() -> Vec<&'static str> {
    vec![
        "cargo:rustc-env=MACOSX_DEPLOYMENT_TARGET=12.0",
        "cargo:rustc-link-lib=swiftCompatibility56",
        "cargo:rustc-link-lib=swiftCompatibilityPacks",
        "cargo:rustc-link-lib=swiftCompatibilityDynamicReplacements",
        "cargo:rustc-link-search=/Applications/Xcode.app/Contents/Developer/Toolchains/XcodeDefault.xctoolchain/usr/lib/swift/macosx",
    ]
}

#[test]
fn target_triples() {
    assert_eq!(Target::from_triple("aarch64-apple-ios-sim"), Ok(Target::Apple(AppleTarget::SimulatorArm64)));
    assert_eq!(Target::from_triple("aarch64-apple-ios"), Ok(Target::Apple(AppleTarget::IosArm64)));
    assert_eq!(Target::from_triple("aarch64-apple-darwin"), Ok(Target::Apple(AppleTarget::MacOsArm64)));
    assert_eq!(
        Target::from_triple("aarch64-linux-android"),
        Ok(Target::Android(AndroidTarget::AndroidArm64))
    );
    assert_eq!(
        Target::from_triple("x86_64-linux-android"),
        Ok(Target::Android(AndroidTarget::AndroidX86))
    );
    assert_eq!(Target::from_triple("armv7-linux-androideabi"), Err(UnsupportedPlatform::Android));
    assert_eq!(Target::from_triple("aarch64-apple-tvos"), Err(UnsupportedPlatform::Apple));
    assert_eq!(Target::from_triple("x86_64-unknown-linux-gnu"), Err(UnsupportedPlatform::Any));
    assert_eq!(Target::new("aarch64-apple-ios"), Target::Apple(AppleTarget::IosArm64));
    assert_eq!(AppleTarget::new("x86_64-apple-darwin"), AppleTarget::MacOsArm64);
    assert_eq!(AndroidTarget::new("aarch64-linux-android"), AndroidTarget::AndroidArm64);
    assert_eq!(AppleTarget::from_triple("x86_64-unknown-linux-gnu"), None);
    assert_eq!(AndroidTarget::from_triple("i686-linux-android"), None);
}

#[test]
fn refusal_messages() {
    assert_eq!(UnsupportedPlatform::Any.message("t"), "Unsupported prebuilt platform: t");
    assert_eq!(UnsupportedPlatform::Android.message("t"), "Unsupported prebuilt android platform: t");
    assert_eq!(UnsupportedPlatform::Apple.message("t"), "Unsupported prebuilt apple platform: t");
}

#[test]
fn target_directories() {
    assert_eq!(Target::Android(AndroidTarget::AndroidX86).download("/a"), "/a/x86_64");
    assert_eq!(Target::Android(AndroidTarget::AndroidArm64).download("/a"), "/a/aarch64");
    assert_eq!(Target::Apple(AppleTarget::IosArm64).download("/x"), "/x/ios-arm64");
    assert_eq!(Target::Apple(AppleTarget::SimulatorArm64).download("/x/"), "/x/ios-arm64-simulator");
    assert_eq!(Target::Apple(AppleTarget::MacOsArm64).download("/x"), "/x/macos-arm64");
}

fn all_enabled() -> EnabledFeatures {
    EnabledFeatures {
        xnnpack: true,
        optimised_kernels: true,
        torch_ao: true,
        quantised_kernels: true,
        llm: true,
        llm_kernels: true,
        coreml: true,
    }
}

#[test]
fn features_requested_for_apple() {
    let set = Feature::get_features(&Target::Apple(AppleTarget::IosArm64), &all_enabled());
    assert_eq!(
        set.members(),
        &vec![
            Feature::XNNPack,
            Feature::Threadpool,
            Feature::Accelerate,
            Feature::OptimisedKernels,
            Feature::TorchAO,
            Feature::QuantisedKernels,
            Feature::Llm,
            Feature::LlmKernels,
            Feature::CoreML,
        ]
    );
    let coreml = EnabledFeatures { coreml: true, ..EnabledFeatures::default() };
    let set = Feature::get_features(&Target::Apple(AppleTarget::MacOsArm64), &coreml);
    assert_eq!(set.members(), &vec![Feature::Accelerate, Feature::CoreML]);
    let none = Feature::get_features(&Target::Apple(AppleTarget::MacOsArm64), &EnabledFeatures::default());
    assert!(none.members().is_empty());
}

#[test]
fn android_requests_no_features() {
    let set = Feature::get_features(&Target::Android(AndroidTarget::AndroidArm64), &all_enabled());
    assert!(set.members().is_empty());
}

#[test]
fn feature_set_keeps_first_place() {
    let mut s = FeatureSet::new();
    s.insert(Feature::Llm);
    s.insert(Feature::CoreML);
    s.insert(Feature::Llm);
    assert!(s.contains(Feature::CoreML));
    assert!(!s.contains(Feature::TorchAO));
    assert_eq!(s.members(), &vec![Feature::Llm, Feature::CoreML]);
}

#[test]
fn feature_link_lines() {
    assert_eq!(
        Feature::XNNPack.link("d"),
        vec!["cargo::rustc-link-lib=static:+whole-archive=backend_xnnpack"]
    );
    assert_eq!(
        Feature::CoreML.link("/p"),
        vec![
            "cargo:rustc-link-arg=-force_load",
            "cargo:rustc-link-lib=static:+whole-archive=backend_coreml",
            "cargo:rustc-link-arg=/p/libbackend_coreml.a",
            "cargo:rustc-link-arg=-ObjC",
            "cargo:rustc-link-lib=framework=CoreML",
            "cargo:rustc-link-lib=sqlite3",
        ]
    );
    assert_eq!(Feature::Accelerate.link("d"), vec!["cargo:rustc-link-lib=framework=Accelerate"]);
}

#[test]
fn swift_runtime_lines() {
    assert_eq!(AppleTarget::link_swift(XCODE), swift());
    assert_eq!(AppleTarget::link_swift(" \t/Applications/Xcode.app/Contents/Developer \u{2003}"), swift());
}

#[test]
fn link_target_lines() {
    assert_eq!(
        Target::Android(AndroidTarget::AndroidArm64).link_target("/a", ""),
        vec!["cargo:rustc-link-search=native=/a/aarch64", "cargo:rustc-link-lib=dylib=executorch"]
    );
    let mut apple = swift();
    apple.push("cargo::rustc-link-search=native=/x/macos-arm64");
    apple.push("cargo::rustc-link-lib=static:+whole-archive=executorch");
    assert_eq!(Target::Apple(AppleTarget::MacOsArm64).link_target("/x", XCODE), apple);
}

#[test]
fn merging_ios_archives() {
    let mut features = FeatureSet::new();
    features.insert(Feature::XNNPack);
    features.insert(Feature::Accelerate);
    features.insert(Feature::CoreML);
    let (steps, merged) = merge_apple_libs("/p", &features, "/out");
    assert_eq!(merged, "/out/libexecutorch_merged.a");
    let inputs: Vec<String> =
        vec!["/p/libexecutorch.a".into(), "/p/libbackend_xnnpack.a".into(), "/p/libbackend_coreml.a".into()];
    let mut expected = emits(&[
        "cargo:rustc-link-arg=-ObjC",
        "cargo:rustc-link-lib=framework=CoreML",
        "cargo:rustc-link-lib=sqlite3",
        "cargo:rustc-link-lib=framework=Accelerate",
    ]);
    expected.push(BuildStep::MergeArchives { output: merged.clone(), inputs });
    expected.extend(emits(&[
        "cargo:rerun-if-changed=/p/libexecutorch.a",
        "cargo:rerun-if-changed=/p/libbackend_xnnpack.a",
        "cargo:rerun-if-changed=/p/libbackend_coreml.a",
    ]));
    assert_eq!(steps, expected);
}

#[test]
fn ios_links_the_merged_archive() {
    let mut features = FeatureSet::new();
    features.insert(Feature::Threadpool);
    let steps = static_lib_merge_step(Target::Apple(AppleTarget::IosArm64), "/p", &features, "/out", XCODE);
    let mut expected = emits(&swift());
    expected.push(BuildStep::MergeArchives {
        output: "/out/libexecutorch_merged.a".into(),
        inputs: vec!["/p/libexecutorch.a".into(), "/p/libthreadpool.a".into()],
    });
    expected.extend(emits(&[
        "cargo:rerun-if-changed=/p/libexecutorch.a",
        "cargo:rerun-if-changed=/p/libthreadpool.a",
        "cargo::rustc-link-search=native=/out",
        "cargo::rustc-link-lib=static:+whole-archive=executorch_merged",
    ]));
    assert_eq!(steps, expected);
}

#[test]
fn macos_links_archives_directly() {
    let mut features = FeatureSet::new();
    features.insert(Feature::Accelerate);
    features.insert(Feature::OptimisedKernels);
    let steps = static_lib_merge_step(Target::Apple(AppleTarget::MacOsArm64), "/p", &features, "/out", XCODE);
    let mut lines = swift();
    lines.extend([
        "cargo::rustc-link-search=native=/p",
        "cargo::rustc-link-lib=static:+whole-archive=executorch",
        "cargo:rustc-link-lib=framework=Accelerate",
        "cargo::rustc-link-lib=static:+whole-archive=kernels_optimized",
    ]);
    assert_eq!(steps, emits(&lines));
}

#[test]
fn android_links_the_shared_library() {
    let steps = static_lib_merge_step(
        Target::Android(AndroidTarget::AndroidX86),
        "/a/x86_64",
        &FeatureSet::new(),
        "/out",
        "",
    );
    assert_eq!(
        steps,
        emits(&["cargo:rustc-link-search=native=/a/x86_64", "cargo:rustc-link-lib=dylib=executorch"])
    );
}

#[test]
fn link_prebuilts_for_simulator() {
    let enabled = EnabledFeatures { xnnpack: true, ..EnabledFeatures::default() };
    let steps = link_prebuilts(Target::Apple(AppleTarget::SimulatorArm64), "/r", &enabled, "/out", XCODE);
    let mut expected = emits(&swift());
    expected.push(BuildStep::MergeArchives {
        output: "/out/libexecutorch_merged.a".into(),
        inputs: vec![
            "/r/ios-arm64-simulator/libexecutorch.a".into(),
            "/r/ios-arm64-simulator/libbackend_xnnpack.a".into(),
            "/r/ios-arm64-simulator/libthreadpool.a".into(),
        ],
    });
    expected.extend(emits(&[
        "cargo:rerun-if-changed=/r/ios-arm64-simulator/libexecutorch.a",
        "cargo:rerun-if-changed=/r/ios-arm64-simulator/libbackend_xnnpack.a",
        "cargo:rerun-if-changed=/r/ios-arm64-simulator/libthreadpool.a",
        "cargo::rustc-link-search=native=/out",
        "cargo::rustc-link-lib=static:+whole-archive=executorch_merged",
    ]));
    assert_eq!(steps, expected);
}

#[test]
fn linked_libraries_match_merged_archives() {
    let all = [
        Feature::XNNPack,
        Feature::CoreML,
        Feature::OptimisedKernels,
        Feature::QuantisedKernels,
        Feature::LlmKernels,
        Feature::Llm,
        Feature::TorchAO,
        Feature::Threadpool,
    ];
    for f in all {
        let lines = f.link("/p");
        let lib = lines
            .iter()
            .find_map(|l| l.split("static:+whole-archive=").nth(1))
            .expect("a whole-archive line")
            .to_string();
        let mut set = FeatureSet::new();
        set.insert(f);
        let (steps, _) = merge_apple_libs("/p", &set, "/out");
        let inputs = steps
            .iter()
            .find_map(|s| match s {
                BuildStep::MergeArchives { inputs, .. } => Some(inputs.clone()),
                _ => None,
            })
            .unwrap();
        assert_eq!(inputs, vec!["/p/libexecutorch.a".to_string(), format!("/p/lib{lib}.a")]);
    }
    let mut set = FeatureSet::new();
    set.insert(Feature::Accelerate);
    let (steps, _) = merge_apple_libs("/p", &set, "/out");
    assert!(steps.contains(&BuildStep::MergeArchives {
        output: "/out/libexecutorch_merged.a".into(),
        inputs: vec!["/p/libexecutorch.a".into()],
    }));
}

#[test]
fn merged_archive_lines() {
    assert_eq!(
        merged_archive_link_lines(Some("/out")),
        vec![
            "cargo::rustc-link-search=native=/out",
            "cargo::rustc-link-lib=static:+whole-archive=executorch_merged",
        ]
    );
    assert_eq!(
        merged_archive_link_lines(None),
        vec!["cargo::rustc-link-lib=static:+whole-archive=executorch_merged"]
    );
}
