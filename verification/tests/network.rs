use nomad_rs::network::{NetworkMode, NetworkResource, Port};

fn net() -> NetworkResource {
    NetworkResource {
        mode: NetworkMode::Bridge,
        reserved_ports: vec![Port { label: "http".to_owned(), static_value: Some(8080), to: Some(80) }],
        dynamic_ports: vec![Port { label: "metrics".to_owned(), static_value: None, to: Some(9000) }],
    }
}

#[test]
fn valid_network_passes() {
    assert!(net().validate().is_ok());
}

#[test]
fn rejects_empty_label() {
    let mut n = net();
    n.reserved_ports[0].label = String::new();
    assert!(n.validate().is_err());
}

#[test]
fn rejects_duplicate_labels() {
    let mut n = net();
    n.dynamic_ports[0].label = "http".to_owned();
    assert!(n.validate().is_err());
}

#[test]
fn rejects_reserved_without_static_value() {
    let mut n = net();
    n.reserved_ports[0].static_value = None;
    assert!(n.validate().is_err());
}

#[test]
fn cni_mode_carries_name() {
    assert_eq!(NetworkMode::Cni("weave".to_owned()), NetworkMode::Cni("weave".to_owned()));
}

#[test]
fn no_network_mode_validates_without_ports() {
    let n = NetworkResource { mode: NetworkMode::NoNetwork, reserved_ports: vec![], dynamic_ports: vec![] };
    assert!(n.validate().is_ok());
}

#[test]
fn rejects_dynamic_port_with_zero_static_value() {
    let mut n = net();
    n.dynamic_ports[0].static_value = Some(0);
    assert!(n.validate().is_err());
}
