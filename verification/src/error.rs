//! Errors of the cryptographic core.
use vstd::prelude::*;

verus! {

/// An error of the cryptographic core.
#[derive(Debug, PartialEq, Eq, Clone)]
pub enum Error {
    /// A key was rejected; the payload names which key.
    InvalidKey(String),
    /// Encryption failed.
    Encrypt,
    /// Decryption failed.
    Decrypt,
    /// The integrity check failed: the data was forged or tampered with.
    Auth,
}

impl Error {
    /// The human-readable message of this error.
    pub open spec fn message(&self) -> Seq<char> {
        match self {
            Error::InvalidKey(what) => "некорректный ключ: "@ + what@,
            Error::Encrypt => "не удалось зашифровать"@,
            Error::Decrypt => "не удалось расшифровать"@,
            Error::Auth => "нарушена целостность данных (подделка)"@,
        }
    }

    /// Renders the error as text.
    pub fn to_string(&self) -> (text: String)
        ensures
            text@ == self.message(),
    {
        match self {
            Error::InvalidKey(what) => {
                let mut text = String::from_str("некорректный ключ: ");
                text.append(what.as_str());
                text
            },
            Error::Encrypt => String::from_str("не удалось зашифровать"),
            Error::Decrypt => String::from_str("не удалось расшифровать"),
            Error::Auth => String::from_str("нарушена целостность данных (подделка)"),
        }
    }
}

} // verus!
