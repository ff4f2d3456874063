use nomad_rs::fingerprint::{CpuFingerprinter, Fingerprinter};

#[test]
fn cpu_fingerprinter_is_named_cpu() {
    assert_eq!(CpuFingerprinter.name(), "cpu");
}

#[test]
fn cpu_detects_total_compute() {
    let attrs = CpuFingerprinter.detect().unwrap();
    assert!(attrs.contains_key("cpu.totalcompute"));
}

#[test]
fn cpu_reports_fixed_total_compute() {
    let attrs = CpuFingerprinter.detect().unwrap();
    assert_eq!(attrs.get("cpu.totalcompute").map(String::as_str), Some("4000"));
    assert_eq!(attrs.len(), 1);
}
