//! The library's error type.
use vstd::prelude::*;

verus! {

/// `std::io::Error`, carried through the library unexamined.
#[verifier::external_type_specification]
#[verifier::external_body]
pub struct ExIoError(std::io::Error);

/// Every failure the library reports.
#[derive(Debug)]
pub enum BxError {
    /// An I/O failure.
    Io(std::io::Error),
    /// Encryption failed; the text says why.
    Encrypt(String),
    /// Decryption failed: wrong password or keyfile, or corrupted data.
    Decrypt,
    /// A keyfile that does not hold exactly 32 bytes; the field is its length.
    InvalidKeyfile(usize),
    /// Key derivation failed; the text says why.
    Kdf(String),
    /// No vault metadata at the given path.
    VaultNotFound(String),
    /// The vault has no entry of the given name.
    EntryNotFound(String),
    /// The vault metadata could not be opened: wrong credential or corrupted metadata.
    MetaCorrupt,
    /// Acrostic input larger than 256 bytes; the field is its length.
    AcrosticInputTooLarge(usize),
    /// The acrostic carrier has fewer words than there are bits to hide.
    CarrierTooShort { need: usize, have: usize },
    /// A steganographic payload could not be extracted; the text says why.
    StegoExtract(String),
}

pub type BxResult<T> = Result<T, BxError>;

/// Wraps `std::io::Error::new` with the kind `InvalidInput` and the given message.
/// Nothing is stated of the error value, which Verus cannot look into.
#[verifier::external_body]
pub(crate) fn io_error_invalid_input(message: &str) -> std::io::Error {
    std::io::Error::new(std::io::ErrorKind::InvalidInput, message)
}

} // verus!
