//! Error type shared by the whole library.
use vstd::prelude::*;

verus! {

/// Opaque handle on `std::io::Error`; only carried through, never inspected.
#[verifier::external_type_specification]
#[verifier::external_body]
pub struct ExIoError(std::io::Error);

/// The error type for all operations of the library.
#[derive(Debug)]
pub enum Error {
    /// An IO error occurred.
    Io(std::io::Error),
    /// A serialisation error occurred; carries the encoder's message.
    Serialize(String),
    /// A configuration error occurred.
    Config(String),
    /// A runtime error occurred.
    Runtime(String),
    /// A validation error occurred.
    Validation(String),
}

/// A specialised `Result` type for the library.
pub type Result<T> = core::result::Result<T, Error>;

impl Error {
    /// `Config` error carrying exactly `msg`.
    pub open spec fn is_config(&self, msg: Seq<char>) -> bool {
        self matches Error::Config(m) && m@ == msg
    }

    /// `Runtime` error carrying exactly `msg`.
    pub open spec fn is_runtime(&self, msg: Seq<char>) -> bool {
        self matches Error::Runtime(m) && m@ == msg
    }

    /// `Validation` error carrying exactly `msg`.
    pub open spec fn is_validation(&self, msg: Seq<char>) -> bool {
        self matches Error::Validation(m) && m@ == msg
    }

    /// Human-readable message: the variant's prefix followed by its detail.
    pub fn message(&self) -> (r: String)
        ensures
            self matches Error::Serialize(m) ==> r@ == "serialisation error: "@ + m@,
            self matches Error::Config(m) ==> r@ == "config error: "@ + m@,
            self matches Error::Runtime(m) ==> r@ == "runtime error: "@ + m@,
            self matches Error::Validation(m) ==> r@ == "validation error: "@ + m@,
    {
        match self {
            Error::Io(e) => crate::text::concat("io error: ", io_error_text(e).as_str()),
            Error::Serialize(m) => crate::text::concat("serialisation error: ", m.as_str()),
            Error::Config(m) => crate::text::concat("config error: ", m.as_str()),
            Error::Runtime(m) => crate::text::concat("runtime error: ", m.as_str()),
            Error::Validation(m) => crate::text::concat("validation error: ", m.as_str()),
        }
    }
}

impl From<std::io::Error> for Error {
    fn from(e: std::io::Error) -> (r: Self) {
        Error::Io(e)
    }
}

impl vstd::std_specs::convert::FromSpecImpl<std::io::Error> for Error {
    open spec fn obeys_from_spec() -> bool {
        true
    }

    open spec fn from_spec(v: std::io::Error) -> Self {
        Error::Io(v)
    }
}

/// The `Display` text of a `std::io::Error` (`format!("{e}")`); its content is
/// the operating system's, so nothing is stated of it.
#[verifier::external_body]
fn io_error_text(e: &std::io::Error) -> String {
    format!("{e}")
}

} // verus!
