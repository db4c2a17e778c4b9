//! The library's error type and stable identifiers.
use crate::text::owned;
use sha1::Digest;
use vstd::prelude::*;

verus! {

/// Errors of the library; each carries its message.
#[derive(Debug, PartialEq, Eq)]
pub enum AppError {
    Io(String),
    Config(String),
    KeybindingConflict(String),
    Parse(String),
    Database(String),
    NotFound(String),
}

pub type Result<T> = std::result::Result<T, AppError>;

impl AppError {
    pub open spec fn spec_message(&self) -> Seq<char> {
        match self {
            AppError::Io(m) => "I/O error: "@ + m@,
            AppError::Config(m) => "Configuration error: "@ + m@,
            AppError::KeybindingConflict(m) => "Keybinding conflict error: "@ + m@,
            AppError::Parse(m) => "Book parse error: "@ + m@,
            AppError::Database(m) => "Database error: "@ + m@,
            AppError::NotFound(m) => "Resource not found: "@ + m@,
        }
    }

    /// The error message shown to the user.
    pub fn to_string(&self) -> (r: String)
        ensures
            r@ == self.spec_message(),
    {
        let (prefix, m) = match self {
            AppError::Io(m) => ("I/O error: ", m),
            AppError::Config(m) => ("Configuration error: ", m),
            AppError::KeybindingConflict(m) => ("Keybinding conflict error: ", m),
            AppError::Parse(m) => ("Book parse error: ", m),
            AppError::Database(m) => ("Database error: ", m),
            AppError::NotFound(m) => ("Resource not found: ", m),
        };
        let mut r = owned(prefix);
        r.append(m.as_str());
        r
    }
}

/// The SHA-1 digest of a byte string, in lowercase hexadecimal.
pub uninterp spec fn sha1_hex_of(bytes: Seq<u8>) -> Seq<char>;

/// `sha1::Sha1::digest`, formatted as lowercase hex; the contract names the
/// result and claims nothing else of it.
#[verifier::external_body]
pub fn sha1_hex(bytes: &[u8]) -> (r: String)
    ensures
        r@ == sha1_hex_of(bytes@),
{
    format!("{:x}", sha1::Sha1::digest(bytes))
}

} // verus!
