//! Ad-hoc encryption of single blobs, with no entry AAD.
pub mod base64;
pub mod decrypt;
pub mod encrypt;
