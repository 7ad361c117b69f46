use dylib_kit::artifact;
use dylib_kit::registry::HookEntry;

const ABC: &str = "ba7816bf8f01cfea414140de5dae2223b00361a396177a9cb410ff61f20015ad";
const EMPTY: &str = "e3b0c44298fc1c149afbf4c8996fb92427ae41e4649b934ca495991b7852b855";

#[test]
fn bytes_are_written_in_lower_case_hexadecimal() {
    assert_eq!(artifact::hex(&vec![0x00, 0x0f, 0xa5, 0xff]), "000fa5ff");
    assert_eq!(artifact::hex(&Vec::new()), "");
    let all: Vec<u8> = (0..=255).collect();
    let expected: String = all.iter().map(|b| format!("{:02x}", b)).collect();
    assert_eq!(artifact::hex(&all), expected);
}

#[test]
fn an_artifact_has_the_digest_and_the_size() {
    let info = artifact::compute_artifact_info(b"abc", None);
    assert_eq!(info.sha256, ABC);
    assert_eq!(info.sha256.len(), 64);
    assert_eq!(info.size, 3);
    assert!(info.git_commit.is_none());
    assert!(info.patched_at.ends_with("+00:00"));
    assert!(info.patched_at.len() >= 25);
    assert_eq!(&info.patched_at[10..11], "T");
    assert_eq!(artifact::compute_artifact_info(b"", None).sha256, EMPTY);
}

#[test]
fn the_commit_is_trimmed() {
    let info = artifact::compute_artifact_info(b"abc", Some(b"34400cc\n"));
    assert_eq!(info.git_commit.as_deref(), Some("34400cc"));
    let broken = artifact::compute_artifact_info(b"abc", Some(b" \xff\n"));
    assert_eq!(broken.git_commit.as_deref(), Some("\u{fffd}"));
}

#[test]
fn an_artifact_is_made_of_its_parts() {
    let info = artifact::artifact_of(
        &vec![0xab, 0x01],
        9,
        "then".to_string(),
        Some(" c\n".to_string()),
    );
    assert_eq!(info.sha256, "ab01");
    assert_eq!(info.size, 9);
    assert_eq!(info.patched_at, "then");
    assert_eq!(info.git_commit.as_deref(), Some("c"));
    assert!(artifact::digest_matches(&info, &vec![0xab, 0x01]));
    assert!(!artifact::digest_matches(&info, &vec![0xab, 0x02]));
}

#[test]
fn a_changed_dylib_is_stale() {
    let mut entry = HookEntry::new("a", "/a.dylib");
    assert_eq!(artifact::check_artifact_stale(&entry, Some(b"abc")), None);
    entry.artifact = Some(artifact::compute_artifact_info(b"abc", None));
    assert_eq!(artifact::check_artifact_stale(&entry, Some(b"abc")), Some(true));
    assert_eq!(artifact::check_artifact_stale(&entry, Some(b"abd")), Some(false));
    assert_eq!(artifact::check_artifact_stale(&entry, None), None);
}
