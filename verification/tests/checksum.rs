use executorch_prebuilt::checksum::{status_is_success, ChecksumMismatch, ChecksumVerifier};

const ABC_SHA: &str = "ba7816bf8f01cfea414140de5dae2223b00361a396177a9cb410ff61f20015ad";
const EMPTY_SHA: &str = "e3b0c44298fc1c149afbf4c8996fb92427ae41e4649b934ca495991b7852b855";

#[test]
fn chunks_hash_as_their_concatenation() {
    let mut v = ChecksumVerifier::new();
    v.absorb(b"a");
    v.absorb(b"");
    v.absorb(b"bc");
    assert_eq!(v.finish(ABC_SHA), Ok(()));
}

#[test]
fn nothing_received_hashes_as_empty() {
    assert_eq!(ChecksumVerifier::new().finish(EMPTY_SHA), Ok(()));
}

#[test]
fn mismatch_reports_both_checksums() {
    let mut v = ChecksumVerifier::new();
    v.absorb(b"abd");
    let err = v.finish(ABC_SHA).unwrap_err();
    assert_eq!(err.expected, ABC_SHA);
    assert_ne!(err.actual, ABC_SHA);
    assert_eq!(err.actual.len(), 64);
    assert!(err.actual.chars().all(|c| c.is_ascii_hexdigit() && !c.is_ascii_uppercase()));
}

#[test]
fn upper_case_expected_checksum_does_not_match() {
    let mut v = ChecksumVerifier::new();
    v.absorb(b"abc");
    let err = v.finish(&ABC_SHA.to_uppercase()).unwrap_err();
    assert_eq!(err.actual, ABC_SHA);
}

#[test]
fn mismatch_message() {
    let m = ChecksumMismatch { expected: "aa".to_string(), actual: "bb".to_string() };
    assert_eq!(m.message(), "Checksum mismatch!\nExpected: aa\nActual:   bb");
}

#[test]
fn success_statuses() {
    assert!(status_is_success(200));
    assert!(status_is_success(204));
    assert!(status_is_success(299));
    assert!(!status_is_success(199));
    assert!(!status_is_success(300));
    assert!(!status_is_success(404));
    assert!(!status_is_success(500));
}
