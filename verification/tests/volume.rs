use nomad_rs::volume::{VolumeMount, VolumeRequest, VolumeType};

fn request() -> VolumeRequest {
    VolumeRequest { name: "data".to_owned(), volume_type: VolumeType::Host, source: "host-data".to_owned(), read_only: false }
}

fn mount() -> VolumeMount {
    VolumeMount { volume: "data".to_owned(), destination: "/var/data".to_owned(), read_only: false }
}

#[test]
fn valid_request_passes() {
    assert!(request().validate().is_ok());
}

#[test]
fn request_rejects_empty_source() {
    let mut r = request();
    r.source = String::new();
    assert!(r.validate().is_err());
}

#[test]
fn valid_mount_passes() {
    assert!(mount().validate().is_ok());
}

#[test]
fn mount_rejects_relative_destination() {
    let mut m = mount();
    m.destination = "var/data".to_owned();
    assert!(m.validate().is_err());
}

#[test]
fn mount_rejects_empty_volume() {
    let mut m = mount();
    m.volume = String::new();
    assert!(m.validate().is_err());
}
