use std::collections::HashMap;

use executorch_prebuilt::manifest::parse_swift_manifest;

const SHA_A: &str = "0123456789abcdef0123456789abcdef0123456789abcdef0123456789abcdef";
const SHA_B: &str = "FEDCBA9876543210FEDCBA9876543210FEDCBA9876543210FEDCBA9876543210";
const SHA_C: &str = "aaaaaaaaaaaaaaaaaaaaaaaaaaaaaaaaaaaaaaaaaaaaaaaaaaaaaaaaaaaaaaaa";

fn as_map(entries: Vec<(String, String)>) -> HashMap<String, String> {
    let n = entries.len();
    let map: HashMap<String, String> = entries.into_iter().collect();
    assert_eq!(map.len(), n, "a key was listed twice");
    map
}

/// The same patterns, matched by the regex crate.
fn parse_with_regex(manifest_content: &str) -> HashMap<String, String> {
    let mut checksums = HashMap::new();
    let block_rx = regex::Regex::new(r#""(?P<name>[a-zA-Z0-9_]+)"\s*:\s*\[([^\]]+)\]"#).unwrap();
    let sha_rx = regex::Regex::new(
        r#""sha256"(?P<debug>\s*\+\s*debug_suffix)?\s*:\s*"(?P<sha>[a-fA-F0-9]{64})""#,
    )
    .unwrap();
    for block_cap in block_rx.captures_iter(manifest_content) {
        let name = &block_cap["name"];
        let block_body = &block_cap[2];
        for sha_cap in sha_rx.captures_iter(block_body) {
            let sha = sha_cap["sha"].to_string();
            if sha_cap.name("debug").is_some() {
                checksums.insert(format!("{}_debug", name), sha);
            } else {
                checksums.insert(name.to_string(), sha);
            }
        }
    }
    checksums
}

#[test]
fn block_with_release_and_debug_checksums() {
    let text = format!(
        "\"backend_coreml\": [ \"sha256\": \"{SHA_A}\", \"sha256\" + debug_suffix: \"{SHA_B}\" ]"
    );
    let map = as_map(parse_swift_manifest(&text));
    assert_eq!(map.len(), 2);
    assert_eq!(map["backend_coreml"], SHA_A);
    assert_eq!(map["backend_coreml_debug"], SHA_B);
}

#[test]
fn package_swift_layout() {
    let text = format!(
        r#"let version = "1.0.0"
let url = "https://ossci-ios.s3.amazonaws.com/executorch/"
let debug_suffix = "_debug"
let dependencies_suffix = "_with_dependencies"

func deliverables(_ dict: [String: [String: Any]]) -> [String: [String: Any]] {{
  dict
    .reduce(into: [String: [String: Any]]()) {{ result, pair in
      let (key, value) = pair
      result[key] = value
      result[key + debug_suffix] = value
    }}
}}

let products = deliverables([
  "backend_coreml": [
    "sha256": "{SHA_A}",
    "sha256" + debug_suffix: "{SHA_B}",
    "frameworks": [
      "Accelerate",
      "CoreML",
    ],
    "libraries": [
      "sqlite3",
    ],
  ],
  "backend_xnnpack": [
    "sha256": "{SHA_C}",
    "sha256" + debug_suffix: "{SHA_A}",
    "targets": [
      "threadpool",
    ],
  ],
  "executorch": [
    "sha256": "{SHA_B}",
    "sha256" + debug_suffix: "{SHA_C}",
  ],
])
"#
    );
    let map = as_map(parse_swift_manifest(&text));
    assert_eq!(map.len(), 6);
    assert_eq!(map["backend_coreml"], SHA_A);
    assert_eq!(map["backend_coreml_debug"], SHA_B);
    assert_eq!(map["backend_xnnpack"], SHA_C);
    assert_eq!(map["backend_xnnpack_debug"], SHA_A);
    assert_eq!(map["executorch"], SHA_B);
    assert_eq!(map["executorch_debug"], SHA_C);
    assert_eq!(map, parse_with_regex(&text));
}

#[test]
fn later_entry_replaces_earlier() {
    let text = format!("\"k\": [ \"sha256\": \"{SHA_A}\" ] \"k\": [ \"sha256\": \"{SHA_C}\" ]");
    let entries = parse_swift_manifest(&text);
    assert_eq!(entries, vec![("k".to_string(), SHA_C.to_string())]);
}

#[test]
fn wrong_length_checksums_are_skipped() {
    let short = &SHA_A[..63];
    let long = format!("{SHA_A}0");
    let text = format!("\"a\": [ \"sha256\": \"{short}\", \"sha256\": \"{long}\" ]");
    assert!(parse_swift_manifest(&text).is_empty());
    assert!(parse_with_regex(&text).is_empty());
}

#[test]
fn empty_and_unterminated_blocks() {
    assert!(parse_swift_manifest("").is_empty());
    assert!(parse_swift_manifest("\"a\": []").is_empty());
    let open = format!("\"a\": [ \"sha256\": \"{SHA_A}\"");
    assert!(parse_swift_manifest(&open).is_empty());
    let spaced = format!("\"a\"\u{a0}:\u{2028}[\"sha256\"\u{3000}+\tdebug_suffix\u{85}:\n\"{SHA_A}\"]");
    let map = as_map(parse_swift_manifest(&spaced));
    assert_eq!(map["a_debug"], SHA_A);
    assert_eq!(map, parse_with_regex(&spaced));
}

#[test]
fn agrees_with_regex_on_generated_texts() {
    let pieces: [&str; 22] = [
        "\"", "\"", "a", "b_1", "sha256", "\"sha256\"", ":", ": ", "[", "]", " ", "\n", "\u{a0}",
        "+", " + debug_suffix", "debug_suffix", SHA_A, SHA_B, "0", "x", ",", "\"k\": [",
    ];
    let mut state: u64 = 0x2545_f491_4f6c_dd1d;
    for _ in 0..3000 {
        let mut text = String::new();
        state = state.wrapping_mul(6364136223846793005).wrapping_add(1442695040888963407);
        let n = (state >> 33) % 40;
        for _ in 0..n {
            state = state.wrapping_mul(6364136223846793005).wrapping_add(1442695040888963407);
            text.push_str(pieces[((state >> 33) % pieces.len() as u64) as usize]);
        }
        let ours = as_map(parse_swift_manifest(&text));
        assert_eq!(ours, parse_with_regex(&text), "on {text:?}");
    }
}
