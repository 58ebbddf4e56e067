//! The error taxonomy shared by the whole crate.
//!
//! Every failure is terminal for the operation that raised it; the variant
//! identifies the exact cause.

use vstd::prelude::*;

verus! {

/// What can go wrong anywhere in the save-handling pipeline.
#[derive(Debug, Clone, Copy, PartialEq, Eq, Structural)]
pub enum SaveError {
    /// Ciphertext whose length is not a multiple of the cipher block size.
    InvalidLength,
    /// A frame that is too short or whose length prefix never terminates.
    MalformedHeader,
    /// The framed payload is not valid text-encoded ciphertext.
    EncodingError,
    /// Decrypted bytes are not valid UTF-8 text.
    Utf8Error,
    /// A file could not be read, written, or parsed as a container.
    IoError,
    /// A required save path is missing or empty.
    ConfigurationError,
    /// Neither sync endpoint exists.
    NoSaveFound,
    /// An unrecognized direction token.
    InvalidDirection,
}

impl SaveError {
    /// A human-readable description of the failure.
    pub fn message(&self) -> (r: String)
        ensures
            r@ == self.message_spec(),
    {
        match self {
            SaveError::InvalidLength => "Invalid encrypted data length".to_owned(),
            SaveError::MalformedHeader => "Invalid save header format".to_owned(),
            SaveError::EncodingError => "Invalid base64 save payload".to_owned(),
            SaveError::Utf8Error => "Decrypted save data is not valid UTF-8".to_owned(),
            SaveError::IoError => "File could not be read or written".to_owned(),
            SaveError::ConfigurationError => "Save sync not configured".to_owned(),
            SaveError::NoSaveFound => "No save files found at configured paths".to_owned(),
            SaveError::InvalidDirection => "Invalid sync direction".to_owned(),
        }
    }

    /// The text that `message` returns for each variant.
    pub open spec fn message_spec(&self) -> Seq<char> {
        match self {
            SaveError::InvalidLength => "Invalid encrypted data length"@,
            SaveError::MalformedHeader => "Invalid save header format"@,
            SaveError::EncodingError => "Invalid base64 save payload"@,
            SaveError::Utf8Error => "Decrypted save data is not valid UTF-8"@,
            SaveError::IoError => "File could not be read or written"@,
            SaveError::ConfigurationError => "Save sync not configured"@,
            SaveError::NoSaveFound => "No save files found at configured paths"@,
            SaveError::InvalidDirection => "Invalid sync direction"@,
        }
    }
}

} // verus!
