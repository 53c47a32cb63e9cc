//! The library's error type and the process exit status of each error.
use vstd::prelude::*;

verus! {

/// `std::io::Error`, carried through unchanged.
#[verifier::external_type_specification]
#[verifier::external_body]
pub struct ExIoError(std::io::Error);

/// Everything that can go wrong in olma.
#[derive(Debug)]
pub enum OlmaError {
    /// No formula has this name.
    FormulaNotFound(String),
    /// The formula has no bottle for this platform.
    BottleNotForPlatform { name: String, platform: String },
    /// A request failed or returned something unusable.
    Network(String),
    /// The downloaded bottle does not hash to the declared value.
    ChecksumMismatch,
    /// The root directory cannot be written.
    RootWriteDenied(String),
    /// The Xcode Command Line Tools are missing.
    MissingXcodeCLT,
    /// Another olma process holds the lock file.
    LockBusy(String),
    /// An I/O operation failed.
    Io(std::io::Error),
    /// Anything else, described by its message.
    Other(String),
}

/// The exit status that each error maps to.
pub open spec fn exit_code_of(e: OlmaError) -> u8 {
    match e {
        OlmaError::FormulaNotFound(_) => 65,
        OlmaError::BottleNotForPlatform { .. } => 66,
        OlmaError::Network(_) => 74,
        OlmaError::ChecksumMismatch => 1,
        OlmaError::RootWriteDenied(_) => 78,
        OlmaError::MissingXcodeCLT => 78,
        OlmaError::LockBusy(_) => 1,
        OlmaError::Io(_) => 74,
        OlmaError::Other(_) => 1,
    }
}

impl OlmaError {
    /// The process exit status for this error.
    pub fn exit_code(&self) -> (r: u8)
        ensures
            r == exit_code_of(*self),
    {
        match self {
            OlmaError::FormulaNotFound(_) => 65,
            OlmaError::BottleNotForPlatform { .. } => 66,
            OlmaError::Network(_) => 74,
            OlmaError::ChecksumMismatch => 1,
            OlmaError::RootWriteDenied(_) => 78,
            OlmaError::MissingXcodeCLT => 78,
            OlmaError::LockBusy(_) => 1,
            OlmaError::Io(_) => 74,
            OlmaError::Other(_) => 1,
        }
    }
}

} // verus!
