use std::io::{Cursor, Write};

use executorch_prebuilt::apple::ExtractStep;
use executorch_prebuilt::unpack::{android_unpack_plan, entry_data, unpack_plan};

fn archive(entries: &[(&str, Option<&[u8]>)]) -> Vec<u8> {
    let mut w = zip::ZipWriter::new(Cursor::new(Vec::new()));
    let opts = zip::write::SimpleFileOptions::default()
        .compression_method(zip::CompressionMethod::Deflated);
    for (name, data) in entries {
        match data {
            Some(d) => {
                w.start_file(*name, opts).unwrap();
                w.write_all(d).unwrap();
            }
            None => w.add_directory(*name, opts).unwrap(),
        }
    }
    w.finish().unwrap().into_inner()
}

#[test]
fn apple_archive_plan() {
    let a = archive(&[
        ("executorch.xcframework/Info.plist", Some(b"plist")),
        ("executorch.xcframework/ios-arm64/Headers/", None),
        ("executorch.xcframework/ios-arm64/Headers/et.h", Some(b"#pragma once")),
        ("executorch.xcframework/ios-arm64/libexecutorch_ios.a", Some(b"release")),
        ("executorch.xcframework/ios-arm64/libexecutorch_debug_ios.a", Some(b"debug")),
    ]);
    let plan = unpack_plan(&a, "out", false).unwrap();
    assert_eq!(
        plan,
        vec![
            (0, vec![]),
            (1, vec![ExtractStep::CreateDirAll("out/ios-arm64/Headers".to_string())]),
            (2, vec![ExtractStep::CopyTo("out/ios-arm64/Headers/et.h".to_string())]),
            (
                3,
                vec![
                    ExtractStep::CopyTo("out/ios-arm64/libexecutorch.a".to_string()),
                    ExtractStep::Report("ios-arm64/libexecutorch_ios.a".to_string()),
                ]
            ),
            (4, vec![]),
        ]
    );
    assert_eq!(entry_data(&a, 3).unwrap(), b"release");
    assert_eq!(entry_data(&a, 2).unwrap(), b"#pragma once");
    assert!(entry_data(&a, 9).is_none());
}

#[test]
fn names_leaving_the_archive_are_skipped() {
    let a = archive(&[("../ios-arm64/libexecutorch.a", Some(b"x"))]);
    assert_eq!(unpack_plan(&a, "out", false).unwrap(), vec![(0, vec![])]);
}

#[test]
fn android_archive_plan() {
    let a = archive(&[
        ("jni/", None),
        ("jni/arm64-v8a/libexecutorch.so", Some(b"arm")),
        ("jni/x86_64/libexecutorch.so", Some(b"x86")),
        ("classes.jar", Some(b"jar")),
    ]);
    let plan = android_unpack_plan(&a, "d").unwrap();
    assert_eq!(
        plan,
        vec![
            (0, vec![]),
            (1, vec![("d/arm64".to_string(), "d/arm64/libexecutorch.so".to_string())]),
            (2, vec![("d/x86_64".to_string(), "d/x86_64/libexecutorch.so".to_string())]),
            (3, vec![]),
        ]
    );
    assert_eq!(entry_data(&a, 2).unwrap(), b"x86");
}

#[test]
fn unreadable_archives() {
    assert!(unpack_plan(b"not a zip archive", "out", false).is_none());
    assert!(android_unpack_plan(b"", "d").is_none());
    assert!(entry_data(b"", 0).is_none());
}
