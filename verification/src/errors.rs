use vstd::prelude::*;

verus! {

/// Everything that can go wrong in this crate.
///
/// Every failing operation reports exactly one of these; the variant's
/// fields carry the context an operator needs to correct the input.
#[derive(Debug)]
pub enum GusError {
    /// An identity id was used that is not present in the registry.
    UnknownIdentity { id: String },
    /// An identity was added under an id that the registry already holds.
    DuplicateIdentity { id: String },
    /// A candidate auto-switch pattern does not parse as a glob; `message`
    /// carries the parser's own report.
    InvalidPattern { pattern: String, message: String },
    /// A read, write or directory creation failed.
    IoError { message: String },
    /// A new key's passphrase was absent or shorter than the configured
    /// minimum length.
    PassphraseTooShort { minimum: usize },
}

impl GusError {
    /// A short, stable name for the variant, for reports and tests.
    pub fn kind_name(&self) -> (r: &'static str)
        ensures
            (self is UnknownIdentity) ==> r@ == "unknown identity"@,
            (self is DuplicateIdentity) ==> r@ == "duplicate identity"@,
            (self is InvalidPattern) ==> r@ == "invalid pattern"@,
            (self is IoError) ==> r@ == "io error"@,
            (self is PassphraseTooShort) ==> r@ == "passphrase too short"@,
    {
        match self {
            GusError::UnknownIdentity { .. } => "unknown identity",
            GusError::DuplicateIdentity { .. } => "duplicate identity",
            GusError::InvalidPattern { .. } => "invalid pattern",
            GusError::IoError { .. } => "io error",
            GusError::PassphraseTooShort { .. } => "passphrase too short",
        }
    }
}

} // verus!
