//! Mutual-TLS configuration for the RPC and HTTP transports.
//!
//! [`TlsConfig`] names the certificate chain, private key and CA bundle; it
//! checks that each path is given and names an existing file. Building the
//! TLS endpoint configurations from those files is the binary's job.
use crate::error::{Error, Result};
use crate::text::{is_blank, is_blank_spec};
use vstd::prelude::*;

verus! {

/// TLS / mTLS configuration for an agent. All paths must name existing
/// files when [`TlsConfig::validate`] is called.
#[derive(Debug, Clone)]
pub struct TlsConfig {
    /// Path to the PEM-encoded X.509 certificate chain.
    pub cert_path: String,
    /// Path to the PEM-encoded private key.
    pub key_path: String,
    /// Path to the PEM-encoded CA certificate bundle.
    pub ca_path: String,
}

/// `Path::new(path).try_exists()`: whether something exists at `path`
/// (`Err` when that cannot be determined). What is on disk decides, so
/// nothing is stated of the result.
#[verifier::external_body]
fn path_exists(path: &str) -> (r: std::io::Result<bool>) {
    std::path::Path::new(path).try_exists()
}

/// `std::io::Error::new(ErrorKind::NotFound, msg)`: an I/O error of kind
/// "not found" carrying `msg`. The error type is opaque here, so nothing is
/// stated of the result.
#[verifier::external_body]
fn not_found_error(msg: String) -> std::io::Error {
    std::io::Error::new(std::io::ErrorKind::NotFound, msg)
}

/// The message for a path option that is empty.
pub open spec fn empty_path_msg(label: Seq<char>) -> Seq<char> {
    label + " must not be empty"@
}

/// What a path check concludes from the existence probe's outcome `found`.
pub fn existence_verdict(path: &str, label: &str, found: std::io::Result<bool>) -> (r: Result<()>)
    ensures
        match found {
            Ok(true) => r is Ok,
            Ok(false) => r matches Err(e) && e is Io,
            Err(_) => r matches Err(e) && e is Io,
        },
{
    match found {
        Ok(true) => Ok(()),
        Ok(false) => {
            let mut msg = String::from_str(label);
            msg.append(" file not found: ");
            msg.append(path);
            Err(Error::Io(not_found_error(msg)))
        },
        Err(e) => Err(Error::Io(e)),
    }
}

/// Ensure `path` is not blank and names an existing file; `label` names the
/// option in the error.
///
/// # Errors
///
/// [`Error::Validation`] when the path is blank; [`Error::Io`] when nothing
/// exists there (kind "not found", message `<label> file not found: <path>`) or when
/// existence cannot be determined.
pub fn validate_path(path: &str, label: &str) -> (r: Result<()>)
    ensures
        is_blank_spec(path@) ==> (r matches Err(e) && e.is_validation(empty_path_msg(label@))),
        !is_blank_spec(path@) ==> (r is Ok || (r matches Err(e) && e is Io)),
{
    if is_blank(path) {
        let mut msg = String::from_str(label);
        msg.append(" must not be empty");
        return Err(Error::Validation(msg));
    }
    existence_verdict(path, label, path_exists(path))
}

/// Whether a path check may fail with `e` for `path` labelled `label`.
pub open spec fn path_failure(e: Error, path: Seq<char>, label: Seq<char>) -> bool {
    if is_blank_spec(path) {
        e.is_validation(empty_path_msg(label))
    } else {
        e is Io
    }
}

impl TlsConfig {
    /// Create a configuration with the given certificate, key and CA paths.
    pub fn new(cert_path: String, key_path: String, ca_path: String) -> (r: TlsConfig)
        ensures
            r.cert_path == cert_path,
            r.key_path == key_path,
            r.ca_path == ca_path,
    {
        TlsConfig { cert_path, key_path, ca_path }
    }

    /// Check the certificate, key and CA paths, in that order.
    ///
    /// # Errors
    ///
    /// The first failing path check's error: [`Error::Validation`] for a
    /// blank path, [`Error::Io`] for a missing file or when existence cannot
    /// be determined. Only existence is probed here; whether a file can be
    /// read shows when it is loaded.
    pub fn validate(&self) -> (r: Result<()>)
        ensures
            is_blank_spec(self.cert_path@) ==> (r matches Err(e) && e.is_validation(empty_path_msg("cert_path"@))),
            is_blank_spec(self.key_path@) || is_blank_spec(self.ca_path@) ==> r is Err,
            r is Ok ==> !is_blank_spec(self.cert_path@) && !is_blank_spec(self.key_path@) && !is_blank_spec(
                self.ca_path@,
            ),
            !is_blank_spec(self.cert_path@) && is_blank_spec(self.key_path@) ==> (r matches Err(e) && (e is Io
                || e.is_validation(empty_path_msg("key_path"@)))),
            r matches Err(e) ==> (path_failure(e, self.cert_path@, "cert_path"@) || path_failure(
                e,
                self.key_path@,
                "key_path"@,
            ) || path_failure(e, self.ca_path@, "ca_path"@)),
    {
        validate_path(self.cert_path.as_str(), "cert_path")?;
        validate_path(self.key_path.as_str(), "key_path")?;
        validate_path(self.ca_path.as_str(), "ca_path")?;
        Ok(())
    }
}

} // verus!
