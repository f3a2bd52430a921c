use krnl_macros::version::krnlc_version_compatible;

#[test]
fn krnlc_version_semver() {
    assert!(krnlc_version_compatible("0.0.1", "0.0.1").unwrap());
    assert!(!krnlc_version_compatible("0.0.1", "0.0.2").unwrap());
    assert!(!krnlc_version_compatible("0.0.2", "0.0.1").unwrap());
    assert!(!krnlc_version_compatible("0.0.2-alpha", "0.0.2").unwrap());
    assert!(!krnlc_version_compatible("0.0.2", "0.0.2-alpha").unwrap());
    assert!(!krnlc_version_compatible("0.0.2", "0.1.0").unwrap());
    assert!(!krnlc_version_compatible("0.1.1-alpha", "0.1.0").unwrap());
    assert!(!krnlc_version_compatible("0.1.1", "0.1.0-alpha").unwrap());
    assert!(krnlc_version_compatible("0.1.1", "0.1.0").unwrap());
    assert!(krnlc_version_compatible("0.1.0", "0.1.1").unwrap());
    assert!(krnlc_version_compatible("0.1.1-alpha", "0.1.1-alpha").unwrap());
    assert!(!krnlc_version_compatible("0.1.0-alpha", "0.1.1-alpha").unwrap());
    assert!(!krnlc_version_compatible("0.1.1", "0.2.0").unwrap());
}

#[test]
fn version_gate_major_lines() {
    assert!(krnlc_version_compatible("1.2.3", "1.2.9").unwrap());
    assert!(krnlc_version_compatible("1.2.9", "1.2.3").unwrap());
    assert!(!krnlc_version_compatible("1.3.0", "1.2.0").unwrap());
    assert!(!krnlc_version_compatible("2.2.0", "1.2.0").unwrap());
}

#[test]
fn version_gate_rejects_non_semver() {
    assert_eq!(krnlc_version_compatible("not-a-version", "0.1.0"), None);
    assert_eq!(krnlc_version_compatible("0.1.0", ""), None);
}
