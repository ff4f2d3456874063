use nomad_rs::artifact::{artifact_file_name, file_name_from_path, Artifact};

fn artifact(source: &str) -> Artifact {
    Artifact { source: source.to_owned(), destination: "local/app".to_owned(), checksum: None }
}

#[test]
fn valid_artifact_passes() {
    assert!(artifact("http://example.com/foo").validate().is_ok());
}

#[test]
fn rejects_empty_source() {
    let mut a = artifact("http://example.com/foo");
    a.source = String::new();
    assert!(a.validate().is_err());
}

#[test]
fn rejects_malformed_checksum() {
    let mut a = artifact("http://example.com/foo");
    a.checksum = Some("deadbeef".to_owned());
    assert!(a.validate().is_err());
}

#[test]
fn well_formed_checksum_passes() {
    let mut a = artifact("http://example.com/foo");
    a.checksum = Some("sha256:abc123".to_owned());
    assert!(a.validate().is_ok());
}

#[test]
fn file_name_is_last_path_segment() {
    assert_eq!(file_name_from_path("/my_artifact.bin"), "my_artifact.bin");
    assert_eq!(file_name_from_path("/a/b/c.tar.gz"), "c.tar.gz");
    assert_eq!(file_name_from_path("/"), "artifact");
    assert_eq!(file_name_from_path("/dir/"), "artifact");
    assert_eq!(file_name_from_path(""), "artifact");
}

#[test]
fn file_name_comes_from_the_parsed_url() {
    assert_eq!(artifact_file_name("http://127.0.0.1:8080/my_artifact.bin?x=1").unwrap(), "my_artifact.bin");
    assert_eq!(artifact_file_name("http://example.com").unwrap(), "artifact");
    assert!(artifact_file_name("not a url").unwrap_err().message().starts_with("config error: invalid artifact URL: "));
}

#[test]
fn checksum_needs_a_type_and_a_value() {
    for bad in [":", "md5:", ":abc"] {
        let mut a = artifact("http://example.com/foo");
        a.checksum = Some(bad.to_owned());
        assert!(a.validate().is_err(), "{bad} should be refused");
    }
    let mut a = artifact("http://example.com/foo");
    a.checksum = Some("sha256:ab:cd".to_owned());
    assert!(a.validate().is_ok());
    a.checksum = Some(":a:b".to_owned());
    assert!(a.validate().is_ok(), "a later colon with text on both sides is enough");
}
